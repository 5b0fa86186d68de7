use yason::array::InnerArrayBuilder;
use yason::{ArrayBuilder, ArrayRefBuilder, BuildError, BytesWrapper, Number, Value};

fn number(int_val: u128, scale: i16, negative: bool) -> Number {
    Number::from_parts(int_val, scale, negative).unwrap()
}

fn read_u32(bytes: &[u8], pos: usize) -> u32 {
    u32::from_le_bytes([bytes[pos], bytes[pos + 1], bytes[pos + 2], bytes[pos + 3]])
}

fn read_i32(bytes: &[u8], pos: usize) -> i32 {
    i32::from_le_bytes([bytes[pos], bytes[pos + 1], bytes[pos + 2], bytes[pos + 3]])
}

#[test]
fn array_of_string_bool_and_nested_array() {
    let mut outer = ArrayBuilder::try_new(3).unwrap();
    outer.push_string("abc").unwrap().push_bool(true).unwrap();
    let mut inner = outer.push_array(1).unwrap();
    inner.push_number(number(42, 0, false)).unwrap();
    let node = inner.finish().unwrap();
    assert_eq!(node, &[2, 9, 0, 0, 0, 1, 0, 4, 7, 0, 0, 0, 1, 42][..]);
    let document = outer.finish().unwrap();
    let expected: Vec<u8> = vec![
        2, // array
        35, 0, 0, 0, // size: 2 + 3 * 5 + 4 + 0 + 14
        3, 0, // three elements
        3, 17, 0, 0, 0, // string at 17
        5, 1, 0, 0, 0, // true
        2, 21, 0, 0, 0, // array at 21
        3, b'a', b'b', b'c', // "abc"
        2, 9, 0, 0, 0, 1, 0, // inner array: size 9, one element
        4, 7, 0, 0, 0, // number at 7
        1, 42, // 42
    ];
    assert_eq!(document.as_bytes(), &expected[..]);
    assert_eq!(document.len(), 5 + 35);
    let inner_size = 2 + 5 + 2;
    assert_eq!(read_i32(document.as_bytes(), 1), 2 + 3 * 5 + 4 + 0 + (5 + inner_size));
}

#[test]
fn empty_array_is_header_alone() {
    let document = ArrayBuilder::try_new(0).unwrap().finish().unwrap();
    assert_eq!(document.into_bytes(), vec![2, 2, 0, 0, 0, 0, 0]);
}

#[test]
fn new_array_has_empty_entries() {
    let mut wrapper = BytesWrapper::new(Vec::new());
    let builder = ArrayRefBuilder::try_new(&mut wrapper, 2).unwrap();
    assert_eq!(builder.wrapper.as_bytes(), &[2, 0, 0, 0, 0, 2, 0, 0, 0, 0, 0, 0, 0, 0, 0, 0, 0][..]);
    assert_eq!(builder.wrapper.depth(), 1);
}

#[test]
fn element_count_is_little_endian() {
    let mut wrapper = BytesWrapper::new(Vec::new());
    let _ = ArrayRefBuilder::try_new(&mut wrapper, 0x0102).unwrap();
    assert_eq!(&wrapper.as_bytes()[5..7], &[2, 1][..]);
    assert_eq!(wrapper.len(), 7 + 5 * 0x0102);
}

#[test]
fn parent_refuses_while_child_is_unfinished() {
    let mut a = ArrayBuilder::try_new(2).unwrap();
    {
        let _b = a.push_object(0, false).unwrap();
    }
    assert_eq!(a.push_null().err(), Some(BuildError::InnerUncompletedError));
    assert_eq!(a.push_bool(true).err(), Some(BuildError::InnerUncompletedError));
    assert_eq!(a.push_string("x").err(), Some(BuildError::InnerUncompletedError));
    assert_eq!(a.push_number(number(1, 0, false)).err(), Some(BuildError::InnerUncompletedError));
    assert_eq!(a.push_array(0).err(), Some(BuildError::InnerUncompletedError));
    assert_eq!(a.push_object(0, true).err(), Some(BuildError::InnerUncompletedError));
    assert_eq!(a.finish().err(), Some(BuildError::InnerUncompletedError));
}

#[test]
fn parent_resumes_after_child_is_finished() {
    let mut a = ArrayBuilder::try_new(2).unwrap();
    let b = a.push_object(0, false).unwrap();
    b.finish().unwrap();
    a.push_null().unwrap();
    let document = a.finish().unwrap();
    assert_eq!(
        document.as_bytes(),
        &[2, 19, 0, 0, 0, 2, 0, 1, 12, 0, 0, 0, 6, 0, 0, 0, 0, 1, 2, 0, 0, 0, 0, 0][..]
    );
}

#[test]
fn cursor_of_parent_refuses_until_cursor_of_child_has_finished() {
    let mut wrapper = BytesWrapper::new(Vec::new());
    let mut a = InnerArrayBuilder::try_new(&mut wrapper, 2).unwrap();
    let mut b = a.push_object(&mut wrapper, 1, false).unwrap();
    assert_eq!(wrapper.depth(), 2);
    let before = wrapper.as_bytes().to_vec();
    assert_eq!(a.push_null(&mut wrapper), Err(BuildError::InnerUncompletedError));
    assert_eq!(a.push_bool(&mut wrapper, false), Err(BuildError::InnerUncompletedError));
    assert_eq!(a.push_string(&mut wrapper, "s"), Err(BuildError::InnerUncompletedError));
    assert_eq!(
        a.push_number(&mut wrapper, number(1, 0, false)),
        Err(BuildError::InnerUncompletedError)
    );
    assert_eq!(a.push_array(&mut wrapper, 0).err(), Some(BuildError::InnerUncompletedError));
    assert_eq!(a.push_object(&mut wrapper, 0, true).err(), Some(BuildError::InnerUncompletedError));
    assert_eq!(wrapper.as_bytes(), &before[..]);
    assert_eq!(wrapper.depth(), 2);
    b.push_null(&mut wrapper, "k").unwrap();
    assert_eq!(b.finish(&mut wrapper), Ok(17));
    assert_eq!(wrapper.depth(), 1);
    assert_eq!(a.push_null(&mut wrapper), Ok(()));
    assert_eq!(a.finish(&mut wrapper), Ok(0));
    assert_eq!(wrapper.depth(), 0);
}

#[test]
fn cursor_of_parent_cannot_finish_before_cursor_of_child() {
    let mut wrapper = BytesWrapper::new(Vec::new());
    let mut a = InnerArrayBuilder::try_new(&mut wrapper, 1).unwrap();
    let b = a.push_array(&mut wrapper, 0).unwrap();
    let before = wrapper.as_bytes().to_vec();
    assert_eq!(a.finish(&mut wrapper), Err(BuildError::InnerUncompletedError));
    assert_eq!(wrapper.as_bytes(), &before[..]);
    assert_eq!(wrapper.depth(), 2);
    assert_eq!(b.finish(&mut wrapper), Ok(12));
    assert_eq!(wrapper.depth(), 1);
}

#[test]
fn grandchild_blocks_child_and_parent() {
    let mut wrapper = BytesWrapper::new(Vec::new());
    let mut a = InnerArrayBuilder::try_new(&mut wrapper, 2).unwrap();
    let mut b = a.push_array(&mut wrapper, 2).unwrap();
    let c = b.push_array(&mut wrapper, 0).unwrap();
    assert_eq!(b.push_null(&mut wrapper), Err(BuildError::InnerUncompletedError));
    assert_eq!(a.push_null(&mut wrapper), Err(BuildError::InnerUncompletedError));
    assert!(c.finish(&mut wrapper).is_ok());
    assert_eq!(a.push_null(&mut wrapper), Err(BuildError::InnerUncompletedError));
    assert_eq!(b.push_null(&mut wrapper), Ok(()));
    assert!(b.finish(&mut wrapper).is_ok());
    assert_eq!(a.push_null(&mut wrapper), Ok(()));
    assert!(a.finish(&mut wrapper).is_ok());
    assert_eq!(wrapper.depth(), 0);
}

#[test]
fn finish_with_missing_values_reports_counts() {
    let mut a = ArrayBuilder::try_new(3).unwrap();
    a.push_null().unwrap();
    assert_eq!(
        a.finish().err(),
        Some(BuildError::InconsistentElementCount { expected: 3, actual: 1 })
    );
    let a = ArrayBuilder::try_new(1).unwrap();
    assert_eq!(
        a.finish().err(),
        Some(BuildError::InconsistentElementCount { expected: 1, actual: 0 })
    );
}

#[test]
fn failed_finish_leaves_size_unwritten() {
    let mut wrapper = BytesWrapper::new(Vec::new());
    let a = InnerArrayBuilder::try_new(&mut wrapper, 1).unwrap();
    let before = wrapper.as_bytes().to_vec();
    assert_eq!(
        a.finish(&mut wrapper),
        Err(BuildError::InconsistentElementCount { expected: 1, actual: 0 })
    );
    assert_eq!(wrapper.as_bytes(), &before[..]);
    assert_eq!(wrapper.depth(), 1);
}

#[test]
fn push_beyond_declared_count_is_refused() {
    let mut wrapper = BytesWrapper::new(Vec::new());
    let mut a = ArrayRefBuilder::try_new(&mut wrapper, 1).unwrap();
    a.push_bool(false).unwrap();
    let before = a.wrapper.as_bytes().to_vec();
    assert_eq!(
        a.push_bool(true).err(),
        Some(BuildError::InconsistentElementCount { expected: 1, actual: 2 })
    );
    assert_eq!(
        a.push_string("late").err(),
        Some(BuildError::InconsistentElementCount { expected: 1, actual: 2 })
    );
    assert_eq!(
        a.push_array(3).err(),
        Some(BuildError::InconsistentElementCount { expected: 1, actual: 2 })
    );
    assert_eq!(a.wrapper.as_bytes(), &before[..]);
    assert_eq!(a.finish().unwrap(), &[2, 7, 0, 0, 0, 1, 0, 5, 0, 0, 0, 0][..]);
}

#[test]
fn push_into_array_of_no_elements_is_refused() {
    let mut a = ArrayBuilder::try_new(0).unwrap();
    assert_eq!(
        a.push_null().err(),
        Some(BuildError::InconsistentElementCount { expected: 0, actual: 1 })
    );
    assert!(a.finish().is_ok());
}

#[test]
fn full_array_of_most_elements_refuses_one_more() {
    let mut a = ArrayBuilder::try_new(u16::MAX).unwrap();
    for _ in 0..u16::MAX {
        a.push_null().unwrap();
    }
    assert_eq!(
        a.push_null().err(),
        Some(BuildError::InconsistentElementCount { expected: 65535, actual: 65536 })
    );
    let document = a.finish().unwrap();
    assert_eq!(document.len(), 7 + 5 * 65535);
    assert_eq!(read_i32(document.as_bytes(), 1), 2 + 5 * 65535);
}

#[test]
fn booleans_and_null_add_no_data() {
    let mut wrapper = BytesWrapper::new(Vec::new());
    let mut a = ArrayRefBuilder::try_new(&mut wrapper, 3).unwrap();
    let len = a.wrapper.len();
    a.push_bool(false).unwrap();
    assert_eq!(a.wrapper.len(), len);
    a.push_bool(true).unwrap();
    assert_eq!(a.wrapper.len(), len);
    a.push_null().unwrap();
    assert_eq!(a.wrapper.len(), len);
    assert_eq!(
        a.finish().unwrap(),
        &[2, 17, 0, 0, 0, 3, 0, 5, 0, 0, 0, 0, 5, 1, 0, 0, 0, 6, 0, 0, 0, 0][..]
    );
}

#[test]
fn size_of_every_node_is_distance_from_count_to_end() {
    let mut a = ArrayBuilder::try_new(2).unwrap();
    let mut b = a.push_array(2).unwrap();
    b.push_string("hello").unwrap();
    let c = b.push_array(0).unwrap();
    c.finish().unwrap();
    b.finish().unwrap();
    a.push_string("tail").unwrap();
    let document = a.finish().unwrap();
    let bytes = document.as_bytes();
    // a: tag at 0, count at 5, entries at 7 and 12, data from 17
    assert_eq!(read_i32(bytes, 1) as usize, bytes.len() - 5);
    // b: tag at 17, count at 22, entries at 24 and 29, data from 34
    assert_eq!(bytes[17], 2);
    let b_start = 22;
    // "hello" takes 6 bytes from 34, c takes 7 bytes from 40, b ends at 47
    assert_eq!(read_i32(bytes, 18) as usize, 47 - b_start);
    // c: tag at 40, count at 45
    assert_eq!(bytes[40], 2);
    assert_eq!(read_i32(bytes, 41), 2);
    // "tail" follows b
    assert_eq!(read_u32(bytes, 13) as usize, 47 - 5);
    assert_eq!(&bytes[47..], &[4, b't', b'a', b'i', b'l'][..]);
}

#[test]
fn offsets_grow_with_the_index() {
    let mut a = ArrayBuilder::try_new(6).unwrap();
    a.push_string("one").unwrap();
    a.push_bool(true).unwrap();
    a.push_number(number(123456789, 3, true)).unwrap();
    let mut b = a.push_array(1).unwrap();
    b.push_string("nested").unwrap();
    b.finish().unwrap();
    a.push_null().unwrap();
    a.push_string("").unwrap();
    let document = a.finish().unwrap();
    let bytes = document.as_bytes();
    let start = 5;
    let table_end = start + 2 + 5 * 6;
    let mut last = 0;
    let mut with_data = 0;
    for i in 0..6 {
        let entry = start + 2 + 5 * i;
        let tag = bytes[entry];
        if tag <= 4 {
            let place = start + read_u32(bytes, entry + 1) as usize;
            assert!(place >= table_end);
            assert!(place < bytes.len());
            assert!(place > last);
            last = place;
            with_data += 1;
        }
    }
    assert_eq!(with_data, 4);
    // the data of each value begins where the data of the one before has ended
    assert_eq!(read_u32(bytes, start + 2 + 1) as usize + start, table_end);
    assert_eq!(read_u32(bytes, start + 2 + 5 * 2 + 1) as usize + start, table_end + 4);
    let number_len = 1 + bytes[table_end + 4] as usize;
    assert_eq!(
        read_u32(bytes, start + 2 + 5 * 3 + 1) as usize + start,
        table_end + 4 + number_len
    );
    assert_eq!(read_u32(bytes, start + 2 + 5 * 5 + 1) as usize + start, bytes.len() - 1);
}

#[test]
fn allocation_failure_leaves_buffer_as_it_was() {
    let failure = Vec::<u8>::new().try_reserve(usize::MAX).unwrap_err();
    let mut wrapper = BytesWrapper::new(Vec::new());
    let mut a = InnerArrayBuilder::try_new(&mut wrapper, 3).unwrap();
    a.push_string(&mut wrapper, "first").unwrap();
    a.push_number(&mut wrapper, number(7, 0, false)).unwrap();
    let before = wrapper.as_bytes().to_vec();
    let r = a.push_value(&mut wrapper, Value::String("third"), Err(failure.clone()));
    assert_eq!(r, Err(BuildError::TryReserveError(failure.clone())));
    assert_eq!(wrapper.as_bytes(), &before[..]);
    assert_eq!(wrapper.depth(), 1);
    let r = a.push_value(&mut wrapper, Value::Array(4), Err(failure.clone()));
    assert_eq!(r, Err(BuildError::TryReserveError(failure.clone())));
    assert_eq!(wrapper.as_bytes(), &before[..]);
    assert_eq!(wrapper.depth(), 1);
    // the builder goes on where it was
    a.push_value(&mut wrapper, Value::String("third"), Ok(())).unwrap();
    assert_eq!(&wrapper.as_bytes()[..before.len() - 8 - 10], &before[..before.len() - 8 - 10]);
    assert_eq!(&wrapper.as_bytes()[22..], &[5, b'f', b'i', b'r', b's', b't', 1, 7, 5, b't', b'h', b'i', b'r', b'd'][..]);
    assert!(a.finish(&mut wrapper).is_ok());
}

#[test]
fn allocation_failure_on_opening_leaves_buffer_as_it_was() {
    let failure = Vec::<u8>::new().try_reserve(usize::MAX).unwrap_err();
    let mut wrapper = BytesWrapper::new(vec![1, 2, 3]);
    let r = InnerArrayBuilder::open(&mut wrapper, 2, Err(failure.clone()));
    assert_eq!(r.err(), Some(BuildError::TryReserveError(failure)));
    assert_eq!(wrapper.as_bytes(), &[1, 2, 3][..]);
    assert_eq!(wrapper.depth(), 0);
    let a = InnerArrayBuilder::open(&mut wrapper, 0, Ok(()));
    assert!(a.is_ok());
    assert_eq!(wrapper.as_bytes(), &[1, 2, 3, 2, 0, 0, 0, 0, 0, 0][..]);
    assert_eq!(wrapper.depth(), 1);
}

#[test]
fn earlier_check_wins_over_allocation_failure() {
    let failure = Vec::<u8>::new().try_reserve(usize::MAX).unwrap_err();
    let mut wrapper = BytesWrapper::new(Vec::new());
    let mut a = InnerArrayBuilder::try_new(&mut wrapper, 1).unwrap();
    a.push_null(&mut wrapper).unwrap();
    assert_eq!(
        a.push_value(&mut wrapper, Value::Null, Err(failure.clone())),
        Err(BuildError::InconsistentElementCount { expected: 1, actual: 2 })
    );
    let mut b = InnerArrayBuilder::try_new(&mut wrapper, 1).unwrap();
    let _c = b.push_array(&mut wrapper, 0).unwrap();
    assert_eq!(
        b.push_value(&mut wrapper, Value::Null, Err(failure)),
        Err(BuildError::InnerUncompletedError)
    );
}

#[test]
fn array_in_buffer_of_caller_begins_behind_what_is_there() {
    let mut wrapper = BytesWrapper::new(vec![0xaa, 0xbb, 0xcc]);
    let mut a = ArrayRefBuilder::try_new(&mut wrapper, 1).unwrap();
    a.push_string("x").unwrap();
    let node = a.finish().unwrap();
    assert_eq!(node, &[2, 9, 0, 0, 0, 1, 0, 3, 7, 0, 0, 0, 1, b'x'][..]);
    assert_eq!(
        wrapper.into_bytes(),
        vec![0xaa, 0xbb, 0xcc, 2, 9, 0, 0, 0, 1, 0, 3, 7, 0, 0, 0, 1, b'x']
    );
}

#[test]
fn two_documents_in_one_buffer() {
    let mut wrapper = BytesWrapper::new(Vec::new());
    let first = ArrayRefBuilder::try_new(&mut wrapper, 0).unwrap();
    assert_eq!(first.finish().unwrap().len(), 7);
    let mut second = ArrayRefBuilder::try_new(&mut wrapper, 1).unwrap();
    second.push_bool(true).unwrap();
    assert_eq!(second.finish().unwrap(), &[2, 7, 0, 0, 0, 1, 0, 5, 1, 0, 0, 0][..]);
    assert_eq!(wrapper.len(), 19);
    assert_eq!(wrapper.depth(), 0);
}

#[test]
fn string_length_prefix_has_seven_bits_to_a_byte() {
    for (len, prefix) in [
        (0usize, vec![0u8]),
        (1, vec![1]),
        (127, vec![127]),
        (128, vec![0x80, 1]),
        (300, vec![0xac, 2]),
        (16383, vec![0xff, 0x7f]),
        (16384, vec![0x80, 0x80, 1]),
        (0x1f_ffff, vec![0xff, 0xff, 0x7f]),
        (0x20_0000, vec![0x80, 0x80, 0x80, 1]),
    ] {
        let text = "s".repeat(len);
        let mut a = ArrayBuilder::try_new(1).unwrap();
        a.push_string(&text).unwrap();
        let document = a.finish().unwrap();
        let bytes = document.as_bytes();
        assert_eq!(bytes.len(), 12 + prefix.len() + len);
        assert_eq!(&bytes[12..12 + prefix.len()], &prefix[..]);
        assert_eq!(&bytes[12 + prefix.len()..], text.as_bytes());
        assert_eq!(read_i32(bytes, 1) as usize, 7 + prefix.len() + len);
    }
}

#[test]
fn string_is_written_in_utf8() {
    let mut a = ArrayBuilder::try_new(1).unwrap();
    a.push_string("h\u{e9}\u{20ac}").unwrap();
    let document = a.finish().unwrap();
    assert_eq!(&document.as_bytes()[12..], &[6, b'h', 0xc3, 0xa9, 0xe2, 0x82, 0xac][..]);
}

#[test]
fn string_that_is_too_long_is_refused() {
    let text = "s".repeat(0x1000_0000);
    let mut a = ArrayBuilder::try_new(1).unwrap();
    assert_eq!(a.push_string(&text).err(), Some(BuildError::StringTooLong(0x1000_0000)));
    a.push_null().unwrap();
    assert_eq!(a.finish().unwrap().len(), 12);
}

#[test]
fn number_is_written_with_its_length() {
    let mut a = ArrayBuilder::try_new(3).unwrap();
    a.push_number(number(0, 0, false)).unwrap();
    a.push_number(number(300, 0, false)).unwrap();
    a.push_number(number(1, 2, true)).unwrap();
    let document = a.finish().unwrap();
    assert_eq!(
        &document.as_bytes()[..22],
        &[2, 26, 0, 0, 0, 3, 0, 4, 17, 0, 0, 0, 4, 19, 0, 0, 0, 4, 22, 0, 0, 0][..]
    );
    assert_eq!(&document.as_bytes()[22..], &[1, 0, 2, 0x2c, 1, 3, 3, 2, 1][..]);
}
