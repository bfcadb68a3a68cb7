use factorio_web_calculator::rational::Rat;

fn rat(n: i64, d: i64) -> Rat {
    Rat::new(n, d)
}

#[test]
fn integer_constructors_expose_their_parts() {
    let z = Rat::zero();
    assert_eq!(z.num(), 0);
    assert_eq!(z.den(), 1);
    let o = Rat::one();
    assert_eq!(o.num(), 1);
    assert_eq!(o.den(), 1);
    let f = Rat::from_int(-7);
    assert_eq!(f.num(), -7);
    assert_eq!(f.den(), 1);
}

#[test]
fn addition_is_exact_and_reduced() {
    let a = rat(1, 3);
    let b = rat(1, 6);
    let s = a.add(&b).unwrap();
    assert_eq!(s.num(), 1);
    assert_eq!(s.den(), 2);
}

#[test]
fn subtraction_can_go_negative() {
    let a = rat(1, 4);
    let b = rat(3, 4);
    let d = a.sub(&b).unwrap();
    assert!(d.same_value(&rat(-1, 2)));
    assert_eq!(d.num(), -1);
    assert_eq!(d.den(), 2);
}

#[test]
fn multiplication_reduces() {
    let a = rat(2, 3);
    let b = rat(9, 4);
    let p = a.mul(&b).unwrap();
    assert_eq!(p.num(), 3);
    assert_eq!(p.den(), 2);
}

#[test]
fn division_by_zero_value_fails() {
    let a = rat(5, 7);
    let z = Rat::zero();
    assert!(a.div(&z).is_none());
}

#[test]
fn division_is_exact() {
    let a = rat(16, 5);
    let b = rat(2, 1);
    let q = a.div(&b).unwrap();
    assert_eq!(q.num(), 8);
    assert_eq!(q.den(), 5);
}

#[test]
fn division_by_negative_keeps_positive_denominator() {
    let a = rat(3, 2);
    let b = rat(-3, 4);
    let q = a.div(&b).unwrap();
    assert_eq!(q.num(), -2);
    assert_eq!(q.den(), 1);
}

#[test]
fn equality_ignores_representation() {
    assert!(rat(2, 4).same_value(&rat(1, 2)));
    assert!(!rat(2, 4).same_value(&rat(2, 3)));
}

#[test]
fn ordering_is_by_value() {
    assert!(rat(1, 3).lt(&rat(1, 2)));
    assert!(!rat(1, 2).lt(&rat(1, 3)));
    assert!(rat(2, 4).le(&rat(1, 2)));
    assert!(rat(-1, 2).lt(&Rat::zero()));
}

#[test]
fn negation_flips_sign() {
    let a = rat(3, 5);
    let n = a.neg();
    assert_eq!(n.num(), -3);
    assert_eq!(n.den(), 5);
    assert!(n.neg().same_value(&a));
}

#[test]
fn overflow_is_reported_not_wrapped() {
    let big = rat(i64::MAX, 1);
    assert!(big.mul(&big).is_none());
    assert!(big.add(&rat(1, 2)).is_none());
}
