use lib::compile_with_env::{SNAKE_FALSE, SNAKE_TRUE};
use lib::float_bits::f32_rounded_bits;
use lib::runtime::{
    classify_snake_val, snake_error_message, sprint_snake_val, u64_to_u8_array, unsigned_to_signed, SnakeVal,
    SnakeValue,
};

#[test]
fn unsigned_to_signed_reinterprets_bits() {
    assert_eq!(unsigned_to_signed(5), 5);
    assert_eq!(unsigned_to_signed(u64::MAX), -1);
    assert_eq!(unsigned_to_signed(1u64 << 63), i64::MIN);
    assert_eq!(unsigned_to_signed((1u64 << 63) - 1), i64::MAX);
}

#[test]
fn bytes_are_big_endian() {
    assert_eq!(u64_to_u8_array(0x0102_0304_0506_0708), [1, 2, 3, 4, 5, 6, 7, 8]);
    for v in [0u64, 1, 0xFF00, u64::MAX, 0x3FF8_0000_0000_0000, 0x8000_0000_0000_0001] {
        assert_eq!(u64::from_be_bytes(u64_to_u8_array(v)), v);
    }
}

#[test]
fn classify_each_kind() {
    assert_eq!(classify_snake_val(SnakeVal(10)), SnakeValue::Num(5));
    assert_eq!(classify_snake_val(SnakeVal((-3i64 << 1) as u64)), SnakeValue::Num(-3));
    assert_eq!(classify_snake_val(SnakeVal(SNAKE_TRUE)), SnakeValue::Bool(true));
    assert_eq!(classify_snake_val(SnakeVal(SNAKE_FALSE)), SnakeValue::Bool(false));
    let bits = 1.5f64.to_bits();
    assert_eq!(classify_snake_val(SnakeVal(bits + 1)), SnakeValue::Float(bits));
    assert_eq!(classify_snake_val(SnakeVal(3)), SnakeValue::Invalid(3));
}

#[test]
fn integer_literals_round_trip() {
    for n in [0i64, 1, -1, 42, -1000, i64::MAX >> 1, i64::MIN >> 1] {
        assert_eq!(classify_snake_val(SnakeVal((n << 1) as u64)), SnakeValue::Num(n));
    }
}

#[test]
fn float_literals_round_trip() {
    for v in [0.0f64, -0.0, 2.1, -0.6, 3.6, 1e-40, f32::MAX as f64, f32::MIN as f64, 10.5] {
        let b = f32_rounded_bits(v.to_bits());
        assert_eq!(b % (1 << 29), 0);
        assert_eq!(classify_snake_val(SnakeVal(b + 1)), SnakeValue::Float(b));
        assert_eq!(f64::from_bits(b) as f32, v as f32);
    }
}

#[test]
fn printed_forms() {
    assert_eq!(sprint_snake_val(SnakeVal(10)), Some("5".to_string()));
    assert_eq!(sprint_snake_val(SnakeVal((-20i64 << 1) as u64)), Some("-20".to_string()));
    assert_eq!(sprint_snake_val(SnakeVal(((i64::MIN >> 1) << 1) as u64)), Some((i64::MIN >> 1).to_string()));
    assert_eq!(sprint_snake_val(SnakeVal(SNAKE_TRUE)), Some("true".to_string()));
    assert_eq!(sprint_snake_val(SnakeVal(SNAKE_FALSE)), Some("false".to_string()));
    assert_eq!(sprint_snake_val(SnakeVal(1.5f64.to_bits() + 1)), None);
    assert_eq!(sprint_snake_val(SnakeVal(3)), Some("error: cannot print 3".to_string()));
}

#[test]
fn error_messages() {
    assert_eq!(snake_error_message(0), ("arithmetic expected a number or float, but got ".to_string(), true));
    assert_eq!(snake_error_message(1), ("comparison expected a number or float, but got ".to_string(), true));
    assert_eq!(snake_error_message(2), ("overflow".to_string(), false));
    assert_eq!(snake_error_message(3), ("logic expected a boolean, but got ".to_string(), true));
    assert_eq!(snake_error_message(4), ("if expected a boolean, but got ".to_string(), true));
    assert_eq!(snake_error_message(5), ("division by zero".to_string(), false));
    assert_eq!(snake_error_message(6), ("sqrt expected a non-negative value".to_string(), false));
    assert_eq!(
        snake_error_message(99),
        ("I apologize to you, dear user. I made a bug. Here's a snake value: ".to_string(), true)
    );
}
