use lib::Fixed;

type Q16 = Fixed<i32, 16>;
type U16 = Fixed<u64, 16>;
type L32 = Fixed<i64, 32>;

#[test]
fn multiply_one_by_two() {
    let a: Q16 = Fixed::from_bits(1 << 16);
    let b: Q16 = Fixed::from_bits(2 << 16);
    let c = a * b;
    assert_eq!(c.to_bits(), 2 << 16);
}

#[test]
fn add_assign_then_shift_right() {
    let a: Q16 = Fixed::from_bits(1 << 16);
    let b: Q16 = Fixed::from_bits(2 << 16);
    let mut c = a * b;
    c += b;
    assert_eq!(c.to_bits(), 4 << 16);
    c >>= 1;
    assert_eq!(c.to_bits(), 2 << 16);
}

#[test]
fn divide_five_by_two() {
    let num: Q16 = Fixed::from_bits(5 << 16);
    let den: Q16 = Fixed::from_bits(2 << 16);
    let q = num / den;
    assert_eq!(q.to_bits(), (2 << 16) + (1 << 15));
}

#[test]
fn negate_and_abs() {
    let q: Q16 = Fixed::from_bits((2 << 16) + (1 << 15));
    let n = -q;
    assert!(n.is_negative());
    assert!(!n.is_positive());
    assert_eq!(n.abs(), q);
}

#[test]
fn remainder_of_five_by_two() {
    let num: Q16 = Fixed::from_bits(5 << 16);
    let den: Q16 = Fixed::from_bits(2 << 16);
    assert_eq!((num % den).to_bits(), 1 << 16);
}

#[test]
fn floor_ceil_round_positive_half() {
    let x: Q16 = Fixed::from_bits((2 << 16) + (1 << 15));
    assert_eq!(x.floor().to_bits(), 2 << 16);
    assert_eq!(x.ceil().to_bits(), 3 << 16);
    assert_eq!(x.round().to_bits(), 3 << 16);
}

#[test]
fn floor_ceil_round_negative_half() {
    let x: Q16 = -Fixed::from_bits((2 << 16) + (1 << 15));
    assert_eq!(x.floor().to_bits(), -3 << 16);
    assert_eq!(x.ceil().to_bits(), -2 << 16);
    assert_eq!(x.round().to_bits(), -2 << 16);
}

#[test]
fn quickstart_round_trip() {
    let a: Q16 = Fixed::from_bits(1 << 16);
    let b: Q16 = Fixed::from_bits(2 << 16);
    let c = a * b;
    let d = c / a;
    assert_eq!(d.to_bits(), 2 << 16);
}

#[test]
fn bits_round_trip() {
    let x: Fixed<u8, 3> = Fixed::from_bits(0b1011_0101);
    assert_eq!(x.to_bits(), 0b1011_0101);
    assert_eq!(Fixed::<i64, 7>::from_bits(-42).to_bits(), -42);
}

#[test]
fn multiply_ties_go_to_even() {
    // 3/2^16 * 0.5 = 1.5 units of 2^-16: rounded to 2.
    let three: U16 = Fixed::from_bits(3);
    let half: U16 = Fixed::from_bits(1 << 15);
    assert_eq!(three.mul_blaze(half).to_bits(), 2);
    // 1 unit * 0.5 = 0.5 unit: rounded to 0.
    let one_unit: U16 = Fixed::from_bits(1);
    assert_eq!(one_unit.mul_blaze(half).to_bits(), 0);
    // 5 units * 0.5 = 2.5 units: rounded to 2.
    let five: U16 = Fixed::from_bits(5);
    assert_eq!((five * half).to_bits(), 2);
    // -3 units * 0.5 = -1.5 units: rounded to -2; -5 units: -2.5 to -2.
    let neg_three: Q16 = Fixed::from_bits(-3);
    let neg_five: Q16 = Fixed::from_bits(-5);
    let qhalf: Q16 = Fixed::from_bits(1 << 15);
    assert_eq!((neg_three * qhalf).to_bits(), -2);
    assert_eq!((neg_five * qhalf).to_bits(), -2);
}

#[test]
fn multiply_rounds_to_nearest() {
    // 0.75 unit rounds up, 0.25 unit rounds down.
    let three: U16 = Fixed::from_bits(3);
    let quarter: U16 = Fixed::from_bits(1 << 14);
    assert_eq!((three * quarter).to_bits(), 1);
    let one_unit: U16 = Fixed::from_bits(1);
    assert_eq!((one_unit * quarter).to_bits(), 0);
}

#[test]
fn integer_multiply_wraps() {
    let a: Fixed<u64, 0> = Fixed::from_bits(u64::MAX);
    let b: Fixed<u64, 0> = Fixed::from_bits(2);
    assert_eq!((a * b).to_bits(), u64::MAX - 1);
    let c: Fixed<i32, 0> = Fixed::from_bits(i32::MAX);
    let d: Fixed<i32, 0> = Fixed::from_bits(2);
    assert_eq!((c * d).to_bits(), -2);
}

#[test]
fn divide_ties_go_to_even() {
    let two: Fixed<u64, 0> = Fixed::from_bits(2);
    assert_eq!(Fixed::<u64, 0>::from_bits(5).div_blaze(two).to_bits(), 2);
    assert_eq!(Fixed::<u64, 0>::from_bits(7).div_blaze(two).to_bits(), 4);
    let neg: Fixed<i32, 0> = Fixed::from_bits(-7);
    assert_eq!((neg / Fixed::from_bits(2)).to_bits(), -4);
    assert_eq!((Fixed::<i32, 0>::from_bits(-5) / Fixed::from_bits(2)).to_bits(), -2);
    assert_eq!((Fixed::<i32, 0>::from_bits(5) / Fixed::from_bits(-2)).to_bits(), -2);
}

#[test]
fn divide_rounds_to_nearest() {
    // 1 / 3 in Q16: 21845.33.. -> 21845; 2 / 3: 43690.66.. -> 43691.
    let one: U16 = Fixed::from_bits(1 << 16);
    let two: U16 = Fixed::from_bits(2 << 16);
    let three: U16 = Fixed::from_bits(3 << 16);
    assert_eq!((one / three).to_bits(), 21845);
    assert_eq!((two / three).to_bits(), 43691);
}

#[test]
fn divide_by_one_and_multiply_by_one() {
    let one: L32 = Fixed::from_bits(1 << 32);
    for raw in [i64::MIN, -123_456_789_012, -1, 0, 1, 987_654_321, i64::MAX] {
        let x: L32 = Fixed::from_bits(raw);
        assert_eq!((x / one).to_bits(), raw);
        assert_eq!((x * one).to_bits(), raw);
    }
    let uone: U16 = Fixed::from_bits(1 << 16);
    for raw in [0u64, 1, 65_535, u64::MAX] {
        let x: U16 = Fixed::from_bits(raw);
        assert_eq!((x / uone).to_bits(), raw);
        assert_eq!((x * uone).to_bits(), raw);
    }
    let qone: Q16 = Fixed::from_bits(1 << 16);
    for raw in [i32::MIN, -7, 0, 7, i32::MAX] {
        let x: Q16 = Fixed::from_bits(raw);
        assert_eq!((x / qone).to_bits(), raw);
        assert_eq!((x * qone).to_bits(), raw);
    }
}

#[test]
fn divide_signed_64() {
    let a: L32 = Fixed::from_bits(-(10i64 << 32));
    let b: L32 = Fixed::from_bits(4i64 << 32);
    // -10 / 4 = -2.5
    assert_eq!((a / b).to_bits(), -(5i64 << 31));
    let mut c = a;
    c /= b;
    assert_eq!(c, a / b);
}

#[test]
fn divide_shift_wraps_in_wide_type() {
    // (2^63 << 64) mod 2^128 is 0 for the unsigned type with 65 fraction bits.
    let x: Fixed<u64, 65> = Fixed::from_bits(1 << 63);
    let y: Fixed<u64, 65> = Fixed::from_bits(1);
    assert_eq!(x.div_blaze(y).to_bits(), 0);
}

#[test]
fn add_and_sub_wrap_and_undo() {
    let max = U16::max_value();
    let unit: U16 = Fixed::from_bits(1);
    assert_eq!((max + unit).to_bits(), 0);
    assert_eq!(((max + unit) - unit), max);
    let min = Q16::min_value();
    let qunit: Q16 = Fixed::from_bits(1);
    assert_eq!((min - qunit).to_bits(), i32::MAX);
    assert_eq!((min - qunit) + qunit, min);
    let mut z: L32 = Fixed::from_bits(5);
    z -= Fixed::from_bits(7);
    assert_eq!(z.to_bits(), -2);
    z += Fixed::from_bits(2);
    assert!(z.is_zero());
}

#[test]
fn negation_of_smallest_value() {
    let min = Q16::min_value();
    assert_eq!((-min).to_bits(), i32::MIN);
    assert_eq!(min.abs().to_bits(), i32::MIN);
    let x: L32 = Fixed::from_bits(-17);
    assert_eq!(-(-x), x);
    assert_eq!(x.abs().to_bits(), 17);
}

#[test]
fn signed_remainder_takes_sign_of_dividend() {
    let a: Fixed<i32, 0> = Fixed::from_bits(-7);
    let b: Fixed<i32, 0> = Fixed::from_bits(2);
    assert_eq!((a % b).to_bits(), -1);
    assert_eq!(a.rem_blaze(Fixed::from_bits(-2)).to_bits(), -1);
    assert_eq!(Fixed::<i32, 0>::from_bits(7).rem_blaze(Fixed::from_bits(-2)).to_bits(), 1);
    let mut c: L32 = Fixed::from_bits(-9);
    c %= Fixed::from_bits(4);
    assert_eq!(c.to_bits(), -1);
    let u: U16 = Fixed::from_bits(17);
    assert_eq!((u % Fixed::from_bits(5)).to_bits(), 2);
}

#[test]
fn shifts() {
    let x: Fixed<u64, 0> = Fixed::from_bits(u64::MAX);
    assert_eq!((x << 1).to_bits(), u64::MAX - 1);
    assert_eq!((x >> 60).to_bits(), 15);
    let y: Fixed<i32, 4> = Fixed::from_bits(-5);
    assert_eq!((y >> 1).to_bits(), -3);
    assert_eq!((y << 1).to_bits(), -10);
    let mut z: L32 = Fixed::from_bits(3);
    z <<= 62;
    assert_eq!(z.to_bits(), i64::MIN + (1i64 << 62));
    z >>= 62;
    assert_eq!(z.to_bits(), -1);
}

#[test]
fn floor_and_ceil_of_whole_numbers_and_wide_fractions() {
    let w: U16 = Fixed::from_bits(7 << 16);
    assert_eq!(w.floor(), w);
    assert_eq!(w.ceil(), w);
    let wide: Fixed<u64, 64> = Fixed::from_bits(5);
    assert_eq!(wide.floor().to_bits(), 0);
    assert_eq!(wide.ceil().to_bits(), 1);
    assert_eq!(wide.round().to_bits(), 0);
    let neg: Fixed<i32, 40> = Fixed::from_bits(-5);
    assert_eq!(neg.floor().to_bits(), -1);
    assert_eq!(neg.ceil().to_bits(), 0);
    assert_eq!(neg.round().to_bits(), -1);
    let pos: Fixed<i64, 70> = Fixed::from_bits(5);
    assert_eq!(pos.floor().to_bits(), 0);
    assert_eq!(pos.ceil().to_bits(), 1);
}

#[test]
fn ceil_wraps_past_largest_value() {
    let x: U16 = Fixed::from_bits(u64::MAX);
    assert_eq!(x.ceil().to_bits(), 0);
    let y: Q16 = Fixed::from_bits(i32::MAX);
    assert_eq!(y.ceil().to_bits(), i32::MIN);
}

#[test]
fn round_without_fraction_bits_is_identity() {
    let x: Fixed<u64, 0> = Fixed::from_bits(12345);
    assert_eq!(x.round(), x);
    let y: Fixed<i64, 0> = Fixed::from_bits(-12345);
    assert_eq!(y.round(), y);
    assert_eq!(y.floor(), y);
}

#[test]
fn round_half_goes_up() {
    let x: Fixed<i64, 1> = Fixed::from_bits(-1); // -0.5
    assert_eq!(x.round().to_bits(), 0);
    let y: Fixed<u64, 2> = Fixed::from_bits(6); // 1.5
    assert_eq!(y.round().to_bits(), 8);
    let z: Fixed<u64, 2> = Fixed::from_bits(5); // 1.25
    assert_eq!(z.round().to_bits(), 4);
}

#[test]
fn min_max_and_predicates() {
    let a: Q16 = Fixed::from_bits(-3);
    let b: Q16 = Fixed::from_bits(4);
    assert_eq!(a.min(b), a);
    assert_eq!(a.max(b), b);
    assert_eq!(b.min(a), a);
    assert!(Q16::zero().is_zero());
    assert!(!a.is_zero());
    let u: U16 = Fixed::from_bits(9);
    assert_eq!(u.max(U16::min_value()), u);
    assert_eq!(U16::max_value().to_bits(), u64::MAX);
    assert_eq!(L32::max_value().to_bits(), i64::MAX);
    assert_eq!(L32::min_value().to_bits(), i64::MIN);
    assert!(L32::zero().is_zero());
}

#[test]
fn default_is_zero() {
    assert_eq!(U16::default().to_bits(), 0);
    assert_eq!(Q16::default().to_bits(), 0);
    assert_eq!(L32::default().to_bits(), 0);
}

#[test]
fn multiply_and_divide_in_place() {
    let mut x: U16 = Fixed::from_bits(3 << 16);
    x *= Fixed::from_bits(1 << 15);
    assert_eq!(x.to_bits(), (1 << 16) + (1 << 15));
    x /= Fixed::from_bits(3 << 15);
    assert_eq!(x.to_bits(), 1 << 16);
    let mut y: Q16 = Fixed::from_bits(-(3 << 16));
    y *= Fixed::from_bits(1 << 15);
    assert_eq!(y.to_bits(), -((1 << 16) + (1 << 15)));
    y /= Fixed::from_bits(-(3 << 15));
    assert_eq!(y.to_bits(), 1 << 16);
}

#[test]
fn i64_floor_ceil_round() {
    let x: L32 = Fixed::from_bits(-(7i64 << 31)); // -3.5
    assert_eq!(x.floor().to_bits(), -(4i64 << 32));
    assert_eq!(x.ceil().to_bits(), -(3i64 << 32));
    assert_eq!(x.round().to_bits(), -(3i64 << 32));
}

#[test]
fn multiplication_commutes_and_zero_absorbs() {
    let pairs: [(i32, i32); 4] = [(3, 32768), (-5, 32768), (123_456, -7_890), (i32::MAX, i32::MIN)];
    for (x, y) in pairs {
        let a: Q16 = Fixed::from_bits(x);
        let b: Q16 = Fixed::from_bits(y);
        assert_eq!(a * b, b * a);
        assert!((a * Q16::zero()).is_zero());
    }
    let u: U16 = Fixed::from_bits(0xdead_beef_1234);
    let v: U16 = Fixed::from_bits(0x1_8000);
    assert_eq!(u * v, v * u);
    assert!((u * U16::zero()).is_zero());
}

#[test]
fn floor_is_idempotent_and_double_negation_is_identity() {
    let x: Q16 = Fixed::from_bits(-123_457);
    assert_eq!(x.floor().floor(), x.floor());
    assert!(x.floor().to_bits() <= x.to_bits());
    assert!(x.to_bits() - x.floor().to_bits() < 1 << 16);
    let min = Q16::min_value();
    assert_eq!(-(-min), min);
    let lmin = L32::min_value();
    assert_eq!(-(-lmin), lmin);
}
