use yason::object::InnerObjectBuilder;
use yason::{BuildError, BytesWrapper, Number, ObjectBuilder, ObjectRefBuilder, Value};

fn read_u32_at(bytes: &[u8], pos: usize) -> u32 {
    u32::from_le_bytes([bytes[pos], bytes[pos + 1], bytes[pos + 2], bytes[pos + 3]])
}

#[test]
fn empty_object_is_header_alone() {
    let document = ObjectBuilder::try_new(0, true).unwrap().finish().unwrap();
    assert_eq!(document.as_bytes(), &[1, 2, 0, 0, 0, 0, 0][..]);
}

#[test]
fn new_object_has_empty_tables() {
    let mut wrapper = BytesWrapper::new(Vec::new());
    let builder = ObjectRefBuilder::try_new(&mut wrapper, 2, false).unwrap();
    let mut expected = vec![1, 0, 0, 0, 0, 2, 0];
    expected.extend_from_slice(&[0; 8]);
    expected.extend_from_slice(&[0; 10]);
    assert_eq!(builder.wrapper.as_bytes(), &expected[..]);
}

#[test]
fn object_of_each_kind_of_value() {
    let mut o = ObjectBuilder::try_new(4, false).unwrap();
    o.push_string("s", "abc").unwrap();
    o.push_bool("b", true).unwrap();
    o.push_null("n").unwrap();
    o.push_number("d", Number::from_parts(42, 0, false).unwrap()).unwrap();
    let document = o.finish().unwrap();
    let expected: Vec<u8> = vec![
        1, // object
        56, 0, 0, 0, // size
        4, 0, // four elements
        38, 0, 0, 0, // key "s" at 38
        45, 0, 0, 0, // key "b" at 45
        48, 0, 0, 0, // key "n" at 48
        51, 0, 0, 0, // key "d" at 51
        3, 41, 0, 0, 0, // string at 41
        5, 1, 0, 0, 0, // true
        6, 0, 0, 0, 0, // null
        4, 54, 0, 0, 0, // number at 54
        1, 0, b's', 3, b'a', b'b', b'c', // key, string
        1, 0, b'b', // key
        1, 0, b'n', // key
        1, 0, b'd', 1, 42, // key, number
    ];
    assert_eq!(document.as_bytes(), &expected[..]);
}

#[test]
fn nested_nodes_in_object() {
    let mut o = ObjectBuilder::try_new(2, true).unwrap();
    let mut a = o.push_array("list", 1).unwrap();
    a.push_bool(false).unwrap();
    assert_eq!(a.finish().unwrap(), &[2, 7, 0, 0, 0, 1, 0, 5, 0, 0, 0, 0][..]);
    let mut p = o.push_object("map", 1, true).unwrap();
    p.push_null("k").unwrap();
    p.finish().unwrap();
    let document = o.finish().unwrap();
    let bytes = document.as_bytes();
    let start = 5;
    // the key offsets name the keys, the entries name the nodes behind them
    let list_key = start + read_u32_at(bytes, 7) as usize;
    assert_eq!(&bytes[list_key..list_key + 6], &[4, 0, b'l', b'i', b's', b't'][..]);
    assert_eq!(bytes[15], 2);
    assert_eq!(start + read_u32_at(bytes, 16) as usize, list_key + 6);
    let map_key = start + read_u32_at(bytes, 11) as usize;
    assert_eq!(map_key, list_key + 6 + 12);
    assert_eq!(&bytes[map_key..map_key + 5], &[3, 0, b'm', b'a', b'p'][..]);
    assert_eq!(bytes[20], 1);
    let map = start + read_u32_at(bytes, 21) as usize;
    assert_eq!(map, map_key + 5);
    assert_eq!(
        &bytes[map..],
        &[1, 14, 0, 0, 0, 1, 0, 11, 0, 0, 0, 6, 0, 0, 0, 0, 1, 0, b'k'][..]
    );
    assert_eq!(read_u32_at(bytes, 1) as usize, bytes.len() - 5);
}

#[test]
fn sorted_object_takes_keys_in_order() {
    let mut o = ObjectBuilder::try_new(4, true).unwrap();
    o.push_null("a").unwrap();
    o.push_null("ab").unwrap();
    o.push_null("b").unwrap();
    o.push_null("ba").unwrap();
    assert!(o.finish().is_ok());
}

#[test]
fn sorted_object_refuses_key_out_of_order() {
    let mut wrapper = BytesWrapper::new(Vec::new());
    let mut o = ObjectRefBuilder::try_new(&mut wrapper, 3, true).unwrap();
    o.push_null("m").unwrap();
    let before = o.wrapper.as_bytes().to_vec();
    assert_eq!(o.push_null("a").err(), Some(BuildError::KeyNotSorted));
    assert_eq!(o.push_null("").err(), Some(BuildError::KeyNotSorted));
    assert_eq!(o.push_bool("lz", true).err(), Some(BuildError::KeyNotSorted));
    assert_eq!(o.push_string("l", "x").err(), Some(BuildError::KeyNotSorted));
    assert_eq!(o.push_array("M", 0).err(), Some(BuildError::KeyNotSorted));
    assert_eq!(o.wrapper.as_bytes(), &before[..]);
    o.push_null("ma").unwrap();
    o.push_null("n").unwrap();
    assert!(o.finish().is_ok());
}

#[test]
fn sorted_object_refuses_key_twice() {
    let mut o = ObjectBuilder::try_new(2, true).unwrap();
    o.push_null("same").unwrap();
    assert_eq!(o.push_null("same").err(), Some(BuildError::KeyNotSorted));
}

#[test]
fn sorted_object_takes_empty_key_first() {
    let mut o = ObjectBuilder::try_new(2, true).unwrap();
    o.push_null("").unwrap();
    o.push_null("a").unwrap();
    assert!(o.finish().is_ok());
}

#[test]
fn keys_are_ordered_byte_by_byte() {
    let mut o = ObjectBuilder::try_new(3, true).unwrap();
    o.push_null("Z").unwrap();
    o.push_null("a").unwrap();
    o.push_null("\u{e9}").unwrap();
    assert!(o.finish().is_ok());
}

#[test]
fn unsorted_object_takes_keys_as_they_come() {
    let mut o = ObjectBuilder::try_new(3, false).unwrap();
    o.push_null("b").unwrap();
    o.push_null("a").unwrap();
    o.push_null("a").unwrap();
    assert!(o.finish().is_ok());
}

#[test]
fn key_that_is_too_long_is_refused() {
    let mut o = ObjectBuilder::try_new(2, false).unwrap();
    let long = "k".repeat(65536);
    assert_eq!(o.push_null(&long).err(), Some(BuildError::KeyTooLong(65536)));
    let longest = "k".repeat(65535);
    o.push_null(&longest).unwrap();
    o.push_bool("", false).unwrap();
    let document = o.finish().unwrap();
    let bytes = document.as_bytes();
    assert_eq!(&bytes[25..27], &[0xff, 0xff][..]);
    assert_eq!(bytes.len(), 25 + 2 + 65535 + 2);
}

#[test]
fn string_that_is_too_long_is_refused_in_object() {
    let text = "s".repeat(0x1000_0000);
    let mut o = ObjectBuilder::try_new(1, false).unwrap();
    assert_eq!(o.push_string("k", &text).err(), Some(BuildError::StringTooLong(0x1000_0000)));
}

#[test]
fn object_finish_with_missing_elements_reports_counts() {
    let mut o = ObjectBuilder::try_new(2, false).unwrap();
    o.push_null("k").unwrap();
    assert_eq!(
        o.finish().err(),
        Some(BuildError::InconsistentElementCount { expected: 2, actual: 1 })
    );
}

#[test]
fn object_push_beyond_declared_count_is_refused() {
    let mut o = ObjectBuilder::try_new(1, false).unwrap();
    o.push_null("k").unwrap();
    assert_eq!(
        o.push_null("l").err(),
        Some(BuildError::InconsistentElementCount { expected: 1, actual: 2 })
    );
    assert!(o.finish().is_ok());
}

#[test]
fn object_refuses_while_child_is_unfinished() {
    let mut o = ObjectBuilder::try_new(2, false).unwrap();
    {
        let _a = o.push_array("a", 1).unwrap();
    }
    assert_eq!(o.push_null("b").err(), Some(BuildError::InnerUncompletedError));
    assert_eq!(o.push_object("b", 0, false).err(), Some(BuildError::InnerUncompletedError));
    assert_eq!(o.finish().err(), Some(BuildError::InnerUncompletedError));
}

#[test]
fn object_cursor_resumes_after_child_cursor_has_finished() {
    let mut wrapper = BytesWrapper::new(Vec::new());
    let mut o = InnerObjectBuilder::try_new(&mut wrapper, 2, true).unwrap();
    let a = o.push_array(&mut wrapper, "a", 0).unwrap();
    assert_eq!(o.push_null(&mut wrapper, "b"), Err(BuildError::InnerUncompletedError));
    assert_eq!(o.push_bool(&mut wrapper, "b", true), Err(BuildError::InnerUncompletedError));
    assert!(a.finish(&mut wrapper).is_ok());
    assert_eq!(o.push_null(&mut wrapper, "b"), Ok(()));
    assert_eq!(o.finish(&mut wrapper), Ok(0));
}

#[test]
fn object_allocation_failure_leaves_buffer_as_it_was() {
    let failure = Vec::<u8>::new().try_reserve(usize::MAX).unwrap_err();
    let mut wrapper = BytesWrapper::new(Vec::new());
    let mut o = InnerObjectBuilder::try_new(&mut wrapper, 2, true).unwrap();
    o.push_string(&mut wrapper, "a", "first").unwrap();
    let before = wrapper.as_bytes().to_vec();
    assert_eq!(
        o.push_value(&mut wrapper, "b", Value::Bool(true), Err(failure.clone())),
        Err(BuildError::TryReserveError(failure.clone()))
    );
    assert_eq!(wrapper.as_bytes(), &before[..]);
    assert_eq!(
        InnerObjectBuilder::open(&mut wrapper, 1, false, Err(failure.clone())).err(),
        Some(BuildError::TryReserveError(failure))
    );
    assert_eq!(wrapper.as_bytes(), &before[..]);
    // the key before is still the last key
    assert_eq!(
        o.push_value(&mut wrapper, "a", Value::Null, Ok(())),
        Err(BuildError::KeyNotSorted)
    );
    assert_eq!(o.push_value(&mut wrapper, "b", Value::Null, Ok(())), Ok(()));
    assert_eq!(o.finish(&mut wrapper), Ok(0));
}
