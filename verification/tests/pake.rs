use num_bigint_dig::BigInt;
use rust_croc::crypto::bignum::BigNum;
use rust_croc::crypto::curve::{EllipticCurve, SIEC255Params};
use rust_croc::crypto::pake::{bigint_to_signed_bytes_be, is_valid_point, Error, Pake, Role};
use rust_croc::proto::croc_raw::{KeyError, KeyNegotiation};

fn num(decimal: &str) -> BigNum {
    let n = BigInt::parse_bytes(decimal.as_bytes(), 10).unwrap();
    BigNum::from_signed_bytes_be(n.to_signed_bytes_be())
}

fn dec(n: &BigNum) -> String {
    BigInt::from_signed_bytes_be(&n.bytes).to_string()
}

fn point(p: &(BigNum, BigNum)) -> (String, String) {
    (dec(&p.0), dec(&p.1))
}

const P: &str = "28948022309329048855892746252183396360603931420023084536990047309120118726721";
const N: &str = "28948022309329048855892746252183396360263649053102146073526672701688283398081";
const U_U: &str = "793136080485469241208656611513609866400481671853";
const U_V: &str = "18458907634222644275952014841865282643645472623913459400556233196838128612339";
const V_U: &str = "1086685267857089638167386722555472967068468061489";
const V_V: &str = "19593504966619549205903364028255899745298716108914514072669075231742699650911";
const G2: (&str, &str) = (
    "6784692728748995825599862402855483522016546426567910438357042338075027826575",
    "14982863109320699114866362806305859444453206692004135551371801829915686450358",
);
const G3: (&str, &str) = (
    "15508762693928266726769396085241920452527964114034020358226683933290603861217",
    "14902066091748681388520350407103675753252739566337731413744921722214701412361",
);

fn alpha() -> [u8; 32] {
    let mut a = [0u8; 32];
    for i in 0..32 {
        a[i] = (i + 1) as u8;
    }
    a
}

fn beta() -> [u8; 32] {
    let mut a = [0u8; 32];
    for i in 0..32 {
        a[i] = (i + 101) as u8;
    }
    a
}

#[test]
fn test_impl() {
    let _a = Pake::new(Role::Sender, None);
}

#[test]
fn curve_constants_have_their_decimal_values() {
    let curve = SIEC255Params::default();
    assert_eq!(dec(&curve.p), P);
    assert_eq!(dec(&curve.n), N);
    assert_eq!(dec(&curve.a), "0");
    assert_eq!(dec(&curve.b), "19");
    assert_eq!(dec(&curve.gx), "5");
    assert_eq!(dec(&curve.gy), "12");
    assert_eq!(curve.bit_size, 255);
    assert_eq!(curve.name, "SIEC255");
}

#[test]
fn published_points_are_on_the_curve() {
    let curve = SIEC255Params::default();
    assert!(curve.is_on_curve(&num("5"), &num("12")));
    assert!(curve.is_on_curve(&num(U_U), &num(U_V)));
    assert!(curve.is_on_curve(&num(V_U), &num(V_V)));
    assert!(!curve.is_on_curve(&num("5"), &num("13")));
    assert!(!curve.is_on_curve(&num("0"), &num("0")));
}

#[test]
fn pake_constants_are_the_published_points() {
    let pake = Pake::with_alpha(Role::Reciever, None, alpha()).unwrap();
    assert_eq!(dec(&pake.pub_pake.u_u), U_U);
    assert_eq!(dec(&pake.pub_pake.u_v), U_V);
    assert_eq!(dec(&pake.pub_pake.v_u), V_U);
    assert_eq!(dec(&pake.pub_pake.v_v), V_V);
    assert_eq!(dec(&pake.p), P);
    assert_eq!(pake.pw, vec![1u8, 2, 3]);
    assert!(pake.pub_pake.x_u.is_none());
    assert!(pake.k.is_none());
}

#[test]
fn doubling_the_base_point() {
    let curve = SIEC255Params::default();
    let twice = curve.double(&num("5"), &num("12")).unwrap();
    assert_eq!(point(&twice), (G2.0.to_string(), G2.1.to_string()));
}

#[test]
fn doubling_a_point_without_height_gives_the_neutral_point() {
    let curve = SIEC255Params::default();
    let twice = curve.double(&num("7"), &num("0")).unwrap();
    assert_eq!(point(&twice), ("0".to_string(), "0".to_string()));
}

#[test]
fn adding_points() {
    let curve = SIEC255Params::default();
    let g = (num("5"), num("12"));
    let g2 = (num(G2.0), num(G2.1));
    let sum = curve.add(&g.0, &g.1, &g2.0, &g2.1).unwrap();
    assert_eq!(point(&sum), (G3.0.to_string(), G3.1.to_string()));
    // equal points are doubled
    let same = curve.add(&g.0, &g.1, &g.0, &g.1).unwrap();
    assert_eq!(point(&same), (G2.0.to_string(), G2.1.to_string()));
}

#[test]
fn the_zero_point_is_neutral() {
    let curve = SIEC255Params::default();
    let zero = (num("0"), num("0"));
    let left = curve.add(&zero.0, &zero.1, &num("5"), &num("12")).unwrap();
    let right = curve.add(&num("5"), &num("12"), &zero.0, &zero.1).unwrap();
    assert_eq!(point(&left), ("5".to_string(), "12".to_string()));
    assert_eq!(point(&right), ("5".to_string(), "12".to_string()));
}

#[test]
fn points_above_each_other_cancel() {
    let curve = SIEC255Params::default();
    let minus_12 = "28948022309329048855892746252183396360603931420023084536990047309120118726709";
    let sum = curve.add(&num("5"), &num("12"), &num("5"), &num(minus_12)).unwrap();
    assert_eq!(point(&sum), ("0".to_string(), "0".to_string()));
}

#[test]
fn addition_without_an_inverse_has_no_result() {
    let curve = SIEC255Params::default();
    // the two first coordinates differ by the field's order
    let shifted = "28948022309329048855892746252183396360603931420023084536990047309120118726726";
    assert!(curve.add(&num("5"), &num("12"), &num(shifted), &num("13")).is_none());
}

#[test]
fn scalar_multiples_of_the_base_point() {
    let curve = SIEC255Params::default();
    assert_eq!(point(&curve.scalar_base_mult(&[]).unwrap()), ("0".to_string(), "0".to_string()));
    assert_eq!(point(&curve.scalar_base_mult(&[0]).unwrap()), ("0".to_string(), "0".to_string()));
    assert_eq!(point(&curve.scalar_base_mult(&[1]).unwrap()), ("5".to_string(), "12".to_string()));
    assert_eq!(point(&curve.scalar_base_mult(&[2]).unwrap()), (G2.0.to_string(), G2.1.to_string()));
    assert_eq!(point(&curve.scalar_base_mult(&[3]).unwrap()), (G3.0.to_string(), G3.1.to_string()));
    assert_eq!(
        point(&curve.scalar_mult(&num("5"), &num("12"), &[1, 2]).unwrap()),
        (
            "11942350755365550915679680751581907201010311994416446345917144212573158574544"
                .to_string(),
            "5172175651221548419663802116812104929080211418462877121449376793219517849997"
                .to_string()
        )
    );
}

#[test]
fn hashed_bytes_are_twos_complement_and_empty_for_zero() {
    assert_eq!(bigint_to_signed_bytes_be(&num("0")), Vec::<u8>::new());
    assert_eq!(bigint_to_signed_bytes_be(&num("1")), vec![1u8]);
    assert_eq!(bigint_to_signed_bytes_be(&num("127")), vec![127u8]);
    assert_eq!(bigint_to_signed_bytes_be(&num("128")), vec![0u8, 128]);
    assert_eq!(bigint_to_signed_bytes_be(&num("-128")), vec![128u8]);
    assert_eq!(bigint_to_signed_bytes_be(&num("-129")), vec![255u8, 127]);
    assert_eq!(bigint_to_signed_bytes_be(&num("255")), vec![0u8, 255]);
    assert_eq!(bigint_to_signed_bytes_be(&num("256")), vec![1u8, 0]);
    assert_eq!(bigint_to_signed_bytes_be(&num("-1")), vec![255u8]);
    assert_eq!(bigint_to_signed_bytes_be(&num("-1125")), vec![251u8, 155]);
    // an encoding that is longer than needed is shortened
    let padded = BigNum::from_signed_bytes_be(vec![0, 0, 5]);
    assert_eq!(bigint_to_signed_bytes_be(&padded), vec![5u8]);
}

#[test]
fn a_sender_publishes_x() {
    let sender = Pake::with_alpha(Role::Sender, None, alpha()).unwrap();
    assert_eq!(
        dec(sender.pub_pake.x_u.as_ref().unwrap()),
        "21669097853230410346930434285083229351563897339580057304732792370452304580087"
    );
    assert_eq!(
        dec(sender.pub_pake.x_v.as_ref().unwrap()),
        "3756381562106614610035329127563055699476168623945875100263199596259653155920"
    );
    assert!(sender.pub_pake.y_u.is_none());
    assert_eq!(sender.a_alpha, Some(alpha()));
}

#[test]
fn both_sides_derive_the_same_key() {
    let mut sender = Pake::with_alpha(Role::Sender, None, alpha()).unwrap();
    let mut receiver = Pake::with_alpha(Role::Reciever, None, beta()).unwrap();
    receiver.update_with_alpha(sender.pub_pake.duplicate(), beta()).unwrap();
    assert_eq!(
        dec(receiver.pub_pake.y_u.as_ref().unwrap()),
        "16486227272702215808518911779495901464872344994805719520520823451564489404254"
    );
    assert_eq!(
        dec(receiver.pub_pake.y_v.as_ref().unwrap()),
        "13621039482675180117833852529040472726887509066230662349857131664041548266221"
    );
    sender.update_with_alpha(receiver.pub_pake.duplicate(), [0u8; 32]).unwrap();
    assert_eq!(
        dec(sender.z_u.as_ref().unwrap()),
        "2940548796761325379332290724182951261369969027092003565709909529528988347005"
    );
    assert_eq!(dec(sender.z_u.as_ref().unwrap()), dec(receiver.z_u.as_ref().unwrap()));
    assert_eq!(dec(sender.z_v.as_ref().unwrap()), dec(receiver.z_v.as_ref().unwrap()));
    let expected =
        hex::decode("30d6497689dd7aa3740119e85e9fa61b3c9677edf113002e46bbd0ca783fc058").unwrap();
    assert_eq!(sender.k.unwrap().to_vec(), expected);
    assert_eq!(receiver.k.unwrap().to_vec(), expected);
}

#[test]
fn random_exchanges_agree_for_a_given_password() {
    let mut sender = Pake::new(Role::Sender, Some(b"45")).unwrap();
    let mut receiver = Pake::new(Role::Reciever, Some(b"45")).unwrap();
    receiver.update(sender.pub_pake.duplicate()).unwrap();
    sender.update(receiver.pub_pake.duplicate()).unwrap();
    assert!(sender.k.is_some());
    assert_eq!(sender.k, receiver.k);
}

#[test]
fn different_passwords_give_different_keys() {
    let mut sender = Pake::with_alpha(Role::Sender, Some(b"one"), alpha()).unwrap();
    let mut receiver = Pake::with_alpha(Role::Reciever, Some(b"two"), beta()).unwrap();
    receiver.update_with_alpha(sender.pub_pake.duplicate(), beta()).unwrap();
    sender.update_with_alpha(receiver.pub_pake.duplicate(), [0u8; 32]).unwrap();
    assert!(sender.k != receiver.k);
}

#[test]
fn a_key_of_the_same_role_is_refused() {
    let mut sender = Pake::with_alpha(Role::Sender, None, alpha()).unwrap();
    let other = Pake::with_alpha(Role::Sender, None, beta()).unwrap();
    assert!(matches!(sender.update(other.pub_pake), Err(Error::SameRole)));
    assert!(sender.k.is_none());
}

#[test]
fn a_point_with_one_coordinate_is_invalid() {
    let mut receiver = Pake::with_alpha(Role::Reciever, None, beta()).unwrap();
    let mut key = Pake::with_alpha(Role::Sender, None, alpha()).unwrap().pub_pake;
    key.x_v = None;
    match receiver.update(key) {
        Err(Error::InvalidPoint { x, y }) => {
            assert!(x.is_some());
            assert!(y.is_none());
        }
        other => panic!("unexpected outcome {:?}", other),
    }
    assert!(receiver.k.is_none());
    assert!(receiver.pub_pake.x_u.is_none());
}

#[test]
fn is_valid_point_wants_both_coordinates() {
    let pt = is_valid_point(&Some(num("5")), &Some(num("12"))).unwrap();
    assert_eq!(point(&pt), ("5".to_string(), "12".to_string()));
    assert!(matches!(
        is_valid_point(&None, &Some(num("12"))),
        Err(Error::InvalidPoint { x: None, y: Some(_) })
    ));
    assert!(matches!(is_valid_point(&None, &None), Err(Error::InvalidPoint { x: None, y: None })));
}

#[test]
fn a_point_off_the_curve_is_refused() {
    let mut receiver = Pake::with_alpha(Role::Reciever, None, beta()).unwrap();
    let mut key = Pake::with_alpha(Role::Sender, None, alpha()).unwrap().pub_pake;
    key.x_u = Some(num("5"));
    key.x_v = Some(num("13"));
    match receiver.update(key) {
        Err(Error::PointNotOnCurve { x, y }) => {
            assert_eq!(dec(&x), "5");
            assert_eq!(dec(&y), "13");
        }
        other => panic!("unexpected outcome {:?}", other),
    }
    assert!(receiver.k.is_none());
}

#[test]
fn a_sender_without_its_scalar_cannot_finish() {
    let mut sender = Pake::with_alpha(Role::Sender, None, alpha()).unwrap();
    let mut receiver = Pake::with_alpha(Role::Reciever, None, beta()).unwrap();
    receiver.update_with_alpha(sender.pub_pake.duplicate(), beta()).unwrap();
    sender.a_alpha = None;
    assert!(matches!(sender.update(receiver.pub_pake.duplicate()), Err(Error::InvalidAlpha)));
    assert!(sender.k.is_none());
    assert!(sender.z_u.is_none());
}

#[test]
fn a_point_that_cannot_be_divided_by_is_refused() {
    let mut sender = Pake::with_alpha(Role::Sender, None, alpha()).unwrap();
    // Y lies over [pw] V, shifted by the field's order: on the curve as the
    // curve is tested, and yet nothing can be divided by the difference.
    let p = BigInt::parse_bytes(P.as_bytes(), 10).unwrap();
    let vpw_u = BigInt::from_signed_bytes_be(&sender.vpw_u.as_ref().unwrap().bytes);
    let vpw_v = BigInt::from_signed_bytes_be(&sender.vpw_v.as_ref().unwrap().bytes);
    let mut key = Pake::with_alpha(Role::Reciever, None, beta()).unwrap().pub_pake;
    key.y_u = Some(BigNum::from_signed_bytes_be((vpw_u + &p).to_signed_bytes_be()));
    key.y_v = Some(BigNum::from_signed_bytes_be(vpw_v.to_signed_bytes_be()));
    assert!(matches!(sender.update(key), Err(Error::NoInverse)));
    assert!(sender.k.is_none());
}

#[test]
fn a_negotiation_gives_both_sides_the_same_key() {
    let (sender, first) = KeyNegotiation::negotiate_symmetric_key(Role::Sender).unwrap();
    let (receiver, nothing) = KeyNegotiation::negotiate_symmetric_key(Role::Reciever).unwrap();
    assert!(nothing.is_none());
    let (receiver_key, answer) = receiver.finish(first.unwrap()).unwrap();
    let (sender_key, _) = sender.finish(answer).unwrap();
    assert_eq!(sender_key, receiver_key);

    // two senders do not come to a key
    let (sender, _) = KeyNegotiation::negotiate_symmetric_key(Role::Sender).unwrap();
    let (_, other) = KeyNegotiation::negotiate_symmetric_key(Role::Sender).unwrap();
    assert!(matches!(
        sender.finish(other.unwrap()),
        Err(KeyError::Pake(Error::SameRole))
    ));
}

#[test]
fn the_curve_is_tested_by_its_equation_for_either_sign() {
    let curve = SIEC255Params::default();
    // (-12)^2 = 5^3 + 19
    assert!(curve.is_on_curve(&num("5"), &num("-12")));
    // coordinates that differ by the field's order stand for the same point
    let x = "-28948022309329048855892746252183396360603931420023084536990047309120118726716";
    assert!(curve.is_on_curve(&num(x), &num("12")));
    assert!(curve.is_on_curve(&num(x), &num("-12")));
    assert!(!curve.is_on_curve(&num("-5"), &num("12")));
    assert!(!curve.is_on_curve(&num("5"), &num("-13")));
}

#[test]
fn doubling_takes_coordinates_of_either_sign() {
    let curve = SIEC255Params::default();
    let x = "-28948022309329048855892746252183396360603931420023084536990047309120118726716";
    let twice = curve.double(&num(x), &num("12")).unwrap();
    assert_eq!(point(&twice), (G2.0.to_string(), G2.1.to_string()));
}
