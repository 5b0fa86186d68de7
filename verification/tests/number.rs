use decimal_rs::Decimal;
use yason::number::{MAX_BINARY_SIZE, MAX_INT_VAL, MAX_SCALE, MIN_SCALE};
use yason::Number;

fn encoded_by_decimal(int_val: u128, scale: i16, negative: bool) -> Vec<u8> {
    let mut out = Vec::new();
    let decimal = Decimal::from_parts(int_val, scale, negative).unwrap();
    let size = decimal.compact_encode(&mut out).unwrap();
    assert_eq!(size, out.len());
    out
}

#[test]
fn limits_are_those_of_decimal() {
    assert_eq!(MAX_BINARY_SIZE, decimal_rs::MAX_BINARY_SIZE);
    assert_eq!(MIN_SCALE, decimal_rs::MIN_SCALE);
    assert_eq!(MAX_SCALE as i32, decimal_rs::MAX_SCALE as i32 + decimal_rs::MAX_PRECISION as i32 - 1);
    assert_eq!(MAX_INT_VAL, 10u128.pow(decimal_rs::MAX_PRECISION) - 1);
}

#[test]
fn parts_are_accepted_as_decimal_accepts_them() {
    let int_vals = [0, 1, 255, 256, 65535, 65536, MAX_INT_VAL - 1, MAX_INT_VAL, MAX_INT_VAL + 1, u128::MAX];
    let scales = [i16::MIN, -127, -126, -125, -1, 0, 1, 130, 131, 166, 167, 168, 169, i16::MAX];
    for int_val in int_vals {
        for scale in scales {
            for negative in [false, true] {
                let number = Number::from_parts(int_val, scale, negative);
                let decimal = Decimal::from_parts(int_val, scale, negative);
                assert_eq!(number.is_some(), decimal.is_ok(), "{} {} {}", int_val, scale, negative);
            }
        }
    }
}

#[test]
fn parts_out_of_range_are_refused() {
    assert!(Number::from_parts(MAX_INT_VAL, MAX_SCALE, true).is_some());
    assert!(Number::from_parts(MAX_INT_VAL, MIN_SCALE, false).is_some());
    assert!(Number::from_parts(MAX_INT_VAL + 1, 0, false).is_none());
    assert!(Number::from_parts(1, MAX_SCALE + 1, false).is_none());
    assert!(Number::from_parts(1, MIN_SCALE - 1, false).is_none());
}

#[test]
fn parts_come_back_as_given() {
    let number = Number::from_parts(1234, -5, true).unwrap();
    assert_eq!(number.into_parts(), (1234, -5, true));
    let zero = Number::from_parts(0, 7, true).unwrap();
    assert_eq!(zero.into_parts(), (0, 7, true));
}

#[test]
fn encoding_is_that_of_decimal() {
    let int_vals = [0, 1, 42, 255, 256, 300, 65535, 65536, 1 << 64, MAX_INT_VAL];
    let scales = [-126, -1, 0, 1, 2, 130, 167];
    for int_val in int_vals {
        for scale in scales {
            for negative in [false, true] {
                let number = Number::from_parts(int_val, scale, negative).unwrap();
                let encoding = number.encode();
                assert_eq!(encoding, encoded_by_decimal(int_val, scale, negative));
                assert!(encoding.len() <= MAX_BINARY_SIZE);
                assert!(!encoding.is_empty());
            }
        }
    }
}

#[test]
fn encoding_of_known_numbers() {
    assert_eq!(Number::from_parts(0, 0, false).unwrap().encode(), vec![0]);
    assert_eq!(Number::from_parts(0, 9, true).unwrap().encode(), vec![0]);
    assert_eq!(Number::from_parts(42, 0, false).unwrap().encode(), vec![42]);
    assert_eq!(Number::from_parts(300, 0, false).unwrap().encode(), vec![0x2c, 1]);
    assert_eq!(Number::from_parts(42, 0, true).unwrap().encode(), vec![1, 0, 42]);
    assert_eq!(Number::from_parts(1, 2, true).unwrap().encode(), vec![3, 2, 1]);
    assert_eq!(Number::from_parts(1, -2, false).unwrap().encode(), vec![0, 2, 1]);
    assert_eq!(Number::from_parts(65536, 0, false).unwrap().encode(), vec![0, 0, 0, 0, 1]);
    assert_eq!(Number::from_parts(MAX_INT_VAL, 3, false).unwrap().encode().len(), 18);
}

#[test]
fn encoding_is_decoded_by_decimal() {
    for (int_val, scale, negative) in [(42u128, 0i16, false), (123456789, 4, true), (MAX_INT_VAL, -10, false)] {
        let encoding = Number::from_parts(int_val, scale, negative).unwrap().encode();
        let decimal = Decimal::decode(&encoding);
        assert_eq!(decimal, Decimal::from_parts(int_val, scale, negative).unwrap());
    }
}
