use yason::binary::{
    ARRAY_SIZE, DATA_TYPE_SIZE, ELEMENT_COUNT_SIZE, KEY_LENGTH_SIZE, KEY_OFFSET_SIZE,
    MAX_DATA_LENGTH_SIZE, MAX_KEY_LENGTH, MAX_STRING_LENGTH, NUMBER_LENGTH_SIZE, OBJECT_SIZE,
    VALUE_ENTRY_SIZE,
};
use yason::{BuildError, BytesWrapper, DataType, Number, Value};

#[test]
fn tags_of_the_kinds() {
    assert_eq!(DataType::Object.tag(), 1);
    assert_eq!(DataType::Array.tag(), 2);
    assert_eq!(DataType::String.tag(), 3);
    assert_eq!(DataType::Number.tag(), 4);
    assert_eq!(DataType::Bool.tag(), 5);
    assert_eq!(DataType::Null.tag(), 6);
}

#[test]
fn booleans_and_null_are_inline() {
    assert!(DataType::Bool.is_inline());
    assert!(DataType::Null.is_inline());
    assert!(!DataType::Object.is_inline());
    assert!(!DataType::Array.is_inline());
    assert!(!DataType::String.is_inline());
    assert!(!DataType::Number.is_inline());
}

#[test]
fn widths_of_the_fields() {
    assert_eq!(DATA_TYPE_SIZE, 1);
    assert_eq!(ARRAY_SIZE, 4);
    assert_eq!(OBJECT_SIZE, 4);
    assert_eq!(ELEMENT_COUNT_SIZE, 2);
    assert_eq!(VALUE_ENTRY_SIZE, 5);
    assert_eq!(KEY_OFFSET_SIZE, 4);
    assert_eq!(KEY_LENGTH_SIZE, 2);
    assert_eq!(MAX_DATA_LENGTH_SIZE, 4);
    assert_eq!(NUMBER_LENGTH_SIZE, 1);
    assert_eq!(MAX_STRING_LENGTH, (1 << 28) - 1);
    assert_eq!(MAX_KEY_LENGTH, (1 << 16) - 1);
}

#[test]
fn wrapper_keeps_bytes_and_counts_no_node() {
    let wrapper = BytesWrapper::new(vec![1, 2, 3]);
    assert_eq!(wrapper.len(), 3);
    assert_eq!(wrapper.depth(), 0);
    assert_eq!(wrapper.as_bytes(), &[1, 2, 3][..]);
    assert_eq!(wrapper.into_bytes(), vec![1, 2, 3]);
}

#[test]
fn reserving_changes_no_byte() {
    let mut wrapper = BytesWrapper::new(vec![4, 5]);
    assert!(wrapper.try_reserve(0).is_ok());
    assert!(wrapper.try_reserve(1000).is_ok());
    assert_eq!(wrapper.as_bytes(), &[4, 5][..]);
    assert!(wrapper.try_reserve(usize::MAX).is_err());
    assert_eq!(wrapper.as_bytes(), &[4, 5][..]);
    assert_eq!(wrapper.depth(), 0);
}

#[test]
fn reservation_failure_becomes_error_of_build() {
    let failure = Vec::<u8>::new().try_reserve(usize::MAX).unwrap_err();
    assert_eq!(BuildError::from(failure.clone()), BuildError::TryReserveError(failure));
}

#[test]
fn room_of_each_kind_of_value() {
    assert_eq!(Value::Null.room(), 0);
    assert_eq!(Value::Bool(true).room(), 0);
    assert_eq!(Value::Number(Number::from_parts(1, 0, false).unwrap()).room(), 19);
    assert_eq!(Value::String("").room(), 4);
    assert_eq!(Value::String("abc").room(), 7);
    assert_eq!(Value::Array(0).room(), 7);
    assert_eq!(Value::Array(3).room(), 22);
    assert_eq!(Value::Array(u16::MAX).room(), 7 + 5 * 65535);
    assert_eq!(Value::Object(0).room(), 7);
    assert_eq!(Value::Object(3).room(), 34);
    assert_eq!(yason::object::room("key", &Value::Null), 5);
    assert_eq!(yason::object::room("key", &Value::String("abc")), 12);
    assert_eq!(yason::object::room(&"k".repeat(65536), &Value::Null), 0);
}

#[test]
fn kind_of_each_value() {
    assert_eq!(Value::Null.data_type(), DataType::Null);
    assert_eq!(Value::Bool(false).data_type(), DataType::Bool);
    assert_eq!(Value::String("s").data_type(), DataType::String);
    assert_eq!(Value::Number(Number::from_parts(1, 0, false).unwrap()).data_type(), DataType::Number);
    assert_eq!(Value::Array(1).data_type(), DataType::Array);
    assert_eq!(Value::Object(1).data_type(), DataType::Object);
}
