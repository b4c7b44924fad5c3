use ai_credit_status::decimal::{write_hundredths, write_integer, write_two_digits, write_whole};
use ai_credit_status::number::{Double, Single};

struct Patterns {
    state: u64,
}

impl Patterns {
    fn next(&mut self) -> u64 {
        self.state ^= self.state << 13;
        self.state ^= self.state >> 7;
        self.state ^= self.state << 17;
        self.state
    }
}

fn single(x: f32) -> Single {
    Single::from_bits(x.to_bits())
}

fn double(x: f64) -> Double {
    Double::from_bits(x.to_bits())
}

fn same_single(ours: Single, theirs: f32) {
    if theirs.is_nan() {
        assert!(f32::from_bits(ours.bits).is_nan());
    } else {
        assert_eq!(ours.bits, theirs.to_bits());
    }
}

fn same_double(ours: Double, theirs: f64) {
    if theirs.is_nan() {
        assert!(f64::from_bits(ours.bits).is_nan());
    } else {
        assert_eq!(ours.bits, theirs.to_bits());
    }
}

fn singles() -> Vec<f32> {
    let mut values = vec![
        0.0,
        -0.0,
        1.0,
        -1.0,
        0.1,
        0.25,
        0.5,
        0.75,
        100.0,
        3.0,
        7.0,
        1.0e-45,
        -1.0e-45,
        1.1754944e-38,
        f32::MAX,
        f32::MIN,
        f32::INFINITY,
        f32::NEG_INFINITY,
        f32::NAN,
        16777216.0,
        16777217.0,
    ];
    let mut patterns = Patterns { state: 0x9E37_79B9_7F4A_7C15 };
    for _ in 0..30 {
        values.push(f32::from_bits(patterns.next() as u32));
    }
    for _ in 0..20 {
        values.push((patterns.next() % 100000) as f32 / 100.0);
    }
    values
}

fn doubles() -> Vec<f64> {
    let mut values = vec![
        0.0,
        -0.0,
        1.0,
        -1.0,
        0.1,
        0.2,
        0.3,
        100.0,
        3.0,
        7.0,
        5.0e-324,
        -5.0e-324,
        2.2250738585072014e-308,
        f64::MAX,
        f64::MIN,
        f64::INFINITY,
        f64::NEG_INFINITY,
        f64::NAN,
        9007199254740993.0,
        1.0e300,
        1.0e-300,
    ];
    let mut patterns = Patterns { state: 0x2545_F491_4F6C_DD1D };
    for _ in 0..30 {
        values.push(f64::from_bits(patterns.next()));
    }
    for _ in 0..20 {
        values.push((patterns.next() % 10000000) as f64 / 100.0);
    }
    values
}

#[test]
fn single_arithmetic_agrees_with_the_processor() {
    let values = singles();
    for a in &values {
        for b in &values {
            same_single(single(*a).minus(single(*b)), *a - *b);
            same_single(single(*a).times(single(*b)), *a * *b);
            same_single(single(*a).over(single(*b)), *a / *b);
            assert_eq!(single(*a).less(single(*b)), *a < *b);
            assert_eq!(single(*a) == single(*b), *a == *b);
        }
        same_single(single(*a).clamped(), a.clamp(0.0, 1.0));
        same_double(single(*a).widened(), *a as f64);
    }
}

#[test]
fn double_arithmetic_agrees_with_the_processor() {
    let values = doubles();
    for a in &values {
        for b in &values {
            same_double(double(*a).plus(double(*b)), *a + *b);
            same_double(double(*a).minus(double(*b)), *a - *b);
            same_double(double(*a).over(double(*b)), *a / *b);
            assert_eq!(double(*a).less(double(*b)), *a < *b);
            assert_eq!(double(*a) == double(*b), *a == *b);
        }
        same_double(double(*a).clamped(), a.clamp(0.0, 1.0));
        same_single(double(*a).narrowed(), *a as f32);
        assert_eq!(double(*a).positive(), *a > 0.0);
        if *a != 0.0 {
            same_double(double(*a).floored(), a.max(0.0));
        }
    }
}

#[test]
fn whole_numbers_convert_to_the_nearest() {
    let mut patterns = Patterns { state: 77 };
    let mut numbers: Vec<i64> = vec![0, 1, -1, 100, 16777217, 16777219, i64::MAX, i64::MIN];
    for _ in 0..100 {
        numbers.push(patterns.next() as i64);
        numbers.push((patterns.next() as i64) >> 30);
    }
    for n in numbers {
        same_single(Single::from_integer(n), n as f32);
    }
}

#[test]
fn texts_agree_with_the_formatter() {
    let mut values = doubles();
    let ties = vec![
        0.5, 1.5, 2.5, 3.5, -0.5, -1.5, 0.125, 0.375, 0.625, 0.875, 2.675, 1.005, 0.005, 0.015,
        -0.001, 1234567.895, 0.045, 99.995, 999.5, 1.0e22, 123456789012345680.0,
    ];
    for t in ties {
        values.push(t);
    }
    for v in values {
        assert_eq!(write_hundredths(double(v)), format!("{:.2}", v));
        assert_eq!(write_whole(double(v)), format!("{:.0}", v));
    }
    for v in singles() {
        assert_eq!(write_hundredths(single(v).widened()), format!("{:.2}", v));
        assert_eq!(write_whole(single(v).widened()), format!("{:.0}", v));
    }
}

#[test]
fn exact_texts() {
    assert_eq!(write_hundredths(double(12.345)), "12.35");
    assert_eq!(write_hundredths(double(0.125)), "0.12");
    assert_eq!(write_hundredths(double(-0.0)), "-0.00");
    assert_eq!(write_hundredths(double(7.0)), "7.00");
    assert_eq!(write_whole(double(2.5)), "2");
    assert_eq!(write_whole(double(3.5)), "4");
    assert_eq!(write_whole(double(f64::NAN)), "NaN");
    assert_eq!(write_hundredths(double(f64::NEG_INFINITY)), "-inf");
}

#[test]
fn integer_texts() {
    for n in [0i64, 7, 10, 99, 100, -1, -2024, i64::MAX, i64::MIN] {
        assert_eq!(write_integer(n), format!("{}", n));
    }
    for n in [0u32, 1, 9, 10, 12, 31, 100] {
        assert_eq!(write_two_digits(n), format!("{:02}", n));
    }
}

#[test]
fn numbers_compare_by_value() {
    assert!(single(0.0) == single(-0.0));
    assert!(double(0.0) == double(-0.0));
    assert!(single(f32::NAN) != single(f32::NAN));
    assert!(double(f64::NAN) != double(f64::NAN));
    assert!(single(1.0) == single(1.0) && single(1.0) != single(-1.0));
    assert!(double(f64::INFINITY) == double(f64::INFINITY));
}
