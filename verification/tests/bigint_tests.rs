use algokit::bigint::{Int, IntError, Sign};

fn p(s: &str) -> Int {
    Int::parse(s).unwrap()
}

#[test]
fn parse_mul_scenario() {
    let a = p("123456789012345678901234567890");
    let two = p("2");
    assert_eq!(a.mul(&two), p("246913578024691357802469135780"));
}

#[test]
fn parse_div_scenario() {
    let a = p("1000000000000000000000000000000");
    let b = p("1000000000000000000");
    assert_eq!(a.div(&b), p("1000000000000"));
    assert_eq!(a.rem(&b), Int::zero());
}

#[test]
fn exp_scenarios() {
    assert_eq!(Int::one().exp(10), Int::one());
    assert_eq!(p("2").exp(10), p("1024"));
    assert_eq!(p("7").exp(0), Int::one());
}

#[test]
fn fact_scenario() {
    assert_eq!(p("5").fact(), p("120"));
}

#[test]
fn format_zero() {
    assert_eq!(p("0").to_decimal_string(), "0");
}

#[test]
fn parse_rejects_sign() {
    assert_eq!(Int::parse("-123"), Err(IntError::InvalidValue));
}

#[test]
fn parse_rejects_empty() {
    assert_eq!(Int::parse(""), Err(IntError::EmptyValue));
}

#[test]
fn parse_rejects_letter() {
    assert_eq!(Int::parse("12a3"), Err(IntError::InvalidValue));
}

#[test]
fn parse_separators() {
    assert_eq!(p("1_000_000"), p("1000000"));
    assert_eq!(p("1 000 000"), p("1000000"));
}

#[test]
fn decimal_roundtrip() {
    let a = p("987654321098765432109876543210987654321");
    assert_eq!(p(&a.to_decimal_string()), a);
    let b = p("18446744073709551616");
    assert_eq!(p(&b.to_decimal_string()), b);
}

#[test]
fn format_negative() {
    let a = p("123").negate();
    assert_eq!(a.to_decimal_string(), "-123");
}

#[test]
fn add_commutes() {
    let a = p("123456789012345678901234567890");
    let b = p("98765432109876543210").negate();
    assert_eq!(a.add(&b), b.add(&a));
}

#[test]
fn mul_commutes() {
    let a = p("123456789012345678901234567890");
    let b = p("98765432109876543210").negate();
    assert_eq!(a.mul(&b), b.mul(&a));
}

#[test]
fn add_identity_and_inverse() {
    let a = p("123456789012345678901234567890");
    assert_eq!(a.add(&Int::zero()), a);
    assert_eq!(a.add(&a.negate()), Int::zero());
    let n = a.negate();
    assert_eq!(n.add(&n.negate()), Int::zero());
}

#[test]
fn mul_identity_and_annihilator() {
    let a = p("123456789012345678901234567890").negate();
    assert_eq!(a.mul(&Int::one()), a);
    assert_eq!(a.mul(&Int::zero()), Int::zero());
}

#[test]
fn div_rem_identity() {
    let cases = [
        (p("12345678901234567890123"), p("987654321")),
        (p("12345678901234567890123").negate(), p("987654321")),
        (p("12345678901234567890123"), p("987654321").negate()),
        (p("12345678901234567890123").negate(), p("987654321").negate()),
        (p("7"), p("2")),
        (p("7").negate(), p("2")),
    ];
    for (a, b) in cases {
        let q = a.div(&b);
        let r = a.rem(&b);
        assert_eq!(q.mul(&b).add(&r), a);
    }
}

#[test]
fn rem_takes_dividend_sign() {
    let a = p("7").negate();
    let b = p("2");
    assert_eq!(a.rem(&b), p("1").negate());
    assert_eq!(p("7").rem(&p("2").negate()), p("1"));
}

#[test]
fn mul_paths_agree_at_threshold() {
    // a has 16 limbs, so multiplying by a 16-limb value takes the
    // Karatsuba path while 8- and 9-limb values take long multiplication;
    // splitting one factor must give the same product either way.
    let a = Int::from(vec![u64::MAX; 16], Sign::Positive);
    let b = Int::from(vec![u64::MAX; 16], Sign::Positive);
    let low = Int::from(vec![u64::MAX; 8], Sign::Positive);
    let mut shift_limbs = vec![0u64; 8];
    shift_limbs.push(1);
    let shift = Int::from(shift_limbs, Sign::Positive);
    let high = low.mul(&shift);
    assert_eq!(low.add(&high), b);

    let whole = a.mul(&b);
    let split = a.mul(&low).add(&a.mul(&low).mul(&shift));
    assert_eq!(whole, split);
}

#[test]
fn mul_big_matches_decimal() {
    // (2^1024 - 1) * (2^1024 - 1) exercises deep Karatsuba recursion
    let a = Int::from(vec![u64::MAX; 16], Sign::Positive);
    let sq = a.mul(&a);
    // (2^1024 - 1)^2 = 2^2048 - 2^1025 + 1
    let one = Int::one();
    let two = p("2");
    let p2048 = two.exp(2048);
    let p1025 = two.exp(1025);
    assert_eq!(sq, p2048.sub(&p1025).add(&one));
}

#[test]
fn predicates() {
    assert!(p("4").is_even());
    assert!(p("5").is_odd());
    assert!(Int::zero().is_zero());
    assert!(Int::one().is_one());
    assert!(Int::zero().is_positive());
    assert!(Int::zero().is_negative());
    assert!(p("3").negate().is_negative());
    assert!(!p("3").negate().is_positive());
}

#[test]
fn abs_and_simplify() {
    let a = p("42").negate();
    assert_eq!(a.abs(), p("42"));
    let raw = Int::from(vec![7, 0, 0], Sign::Positive);
    assert_eq!(raw.clone().simplify(), p("7"));
    assert_eq!(raw.simplify().len(), 1);
    assert!(!Int::from(vec![1], Sign::Positive).is_empty());
}

#[test]
fn sub_scenarios() {
    let a = p("1000000000000000000000");
    let b = p("1");
    assert_eq!(a.sub(&b), p("999999999999999999999"));
    assert_eq!(b.sub(&a), p("999999999999999999999").negate());
    assert_eq!(a.sub(&a), Int::zero());
}

#[test]
fn div_small_cases() {
    assert_eq!(p("3").div(&p("100")), Int::zero());
    assert_eq!(p("3").rem(&p("100")), p("3"));
    assert_eq!(p("5").div(&p("5")), Int::one());
    assert_eq!(p("5").rem(&p("5")), Int::zero());
    assert_eq!(p("5").div(&Int::one()), p("5"));
    assert_eq!(p("3").rem(&p("18446744073709551616")), p("3"));
}
