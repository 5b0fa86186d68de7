use decimal_rs::Decimal;
use yason::{ArrayBuilder, Number, ObjectBuilder};

#[derive(Debug, PartialEq)]
enum Doc {
    Object(Vec<(String, Doc)>),
    Array(Vec<Doc>),
    String(String),
    Number(Decimal),
    Bool(bool),
    Null,
}

fn u16_at(bytes: &[u8], pos: usize) -> usize {
    u16::from_le_bytes([bytes[pos], bytes[pos + 1]]) as usize
}

fn u32_at(bytes: &[u8], pos: usize) -> usize {
    u32::from_le_bytes([bytes[pos], bytes[pos + 1], bytes[pos + 2], bytes[pos + 3]]) as usize
}

fn i32_at(bytes: &[u8], pos: usize) -> i32 {
    i32::from_le_bytes([bytes[pos], bytes[pos + 1], bytes[pos + 2], bytes[pos + 3]])
}

fn length_at(bytes: &[u8], pos: usize) -> (usize, usize) {
    let mut len = 0;
    let mut width = 0;
    loop {
        let byte = bytes[pos + width] as usize;
        len |= (byte & 0x7f) << (7 * width);
        width += 1;
        if byte < 0x80 {
            return (len, width);
        }
        assert!(width < 4);
    }
}

// Reads the value of an entry; `end` is set to the place behind its data.
fn read_entry(bytes: &[u8], start: usize, entry: usize, end: &mut usize) -> Doc {
    let tag = bytes[entry];
    let field = u32_at(bytes, entry + 1);
    match tag {
        1 | 2 => read_node(bytes, start + field, end),
        3 => {
            let (len, width) = length_at(bytes, start + field);
            let from = start + field + width;
            *end = from + len;
            Doc::String(String::from_utf8(bytes[from..from + len].to_vec()).unwrap())
        }
        4 => {
            let len = bytes[start + field] as usize;
            let from = start + field + 1;
            *end = from + len;
            Doc::Number(Decimal::decode(&bytes[from..from + len]))
        }
        5 => {
            assert!(field <= 1);
            Doc::Bool(field == 1)
        }
        6 => Doc::Null,
        _ => panic!("no such tag: {}", tag),
    }
}

// Reads the node whose tag is at `at`, and checks its size against the place
// where its data ends.
fn read_node(bytes: &[u8], at: usize, end: &mut usize) -> Doc {
    let start = at + 5;
    let size = i32_at(bytes, at + 1);
    let count = u16_at(bytes, start);
    let doc = match bytes[at] {
        2 => {
            let mut last = start + 2 + 5 * count;
            let mut items = Vec::new();
            for i in 0..count {
                items.push(read_entry(bytes, start, start + 2 + 5 * i, &mut last));
            }
            *end = last;
            Doc::Array(items)
        }
        1 => {
            let mut last = start + 2 + 9 * count;
            let mut items = Vec::new();
            for i in 0..count {
                let key_at = start + u32_at(bytes, start + 2 + 4 * i);
                assert_eq!(key_at, last);
                let key_len = u16_at(bytes, key_at);
                let key = String::from_utf8(bytes[key_at + 2..key_at + 2 + key_len].to_vec()).unwrap();
                last = key_at + 2 + key_len;
                let value = read_entry(bytes, start, start + 2 + 4 * count + 5 * i, &mut last);
                items.push((key, value));
            }
            *end = last;
            Doc::Object(items)
        }
        tag => panic!("no node has tag {}", tag),
    };
    assert_eq!(size as usize, *end - start);
    doc
}

fn read_document(bytes: &[u8]) -> Doc {
    let mut end = 0;
    let doc = read_node(bytes, 0, &mut end);
    assert_eq!(end, bytes.len());
    doc
}

fn number(int_val: u128, scale: i16, negative: bool) -> Number {
    Number::from_parts(int_val, scale, negative).unwrap()
}

fn decimal(int_val: u128, scale: i16, negative: bool) -> Decimal {
    Decimal::from_parts(int_val, scale, negative).unwrap()
}

#[test]
fn array_of_every_kind_reads_back() {
    let mut a = ArrayBuilder::try_new(7).unwrap();
    a.push_string("abc").unwrap();
    a.push_bool(true).unwrap();
    a.push_bool(false).unwrap();
    a.push_null().unwrap();
    a.push_number(number(4200, 2, true)).unwrap();
    let mut b = a.push_array(2).unwrap();
    b.push_number(number(42, 0, false)).unwrap();
    b.push_string("").unwrap();
    b.finish().unwrap();
    let mut o = a.push_object(2, true).unwrap();
    o.push_string("k", "v").unwrap();
    o.push_null("l").unwrap();
    o.finish().unwrap();
    let document = a.finish().unwrap();
    assert_eq!(
        read_document(document.as_bytes()),
        Doc::Array(vec![
            Doc::String("abc".to_string()),
            Doc::Bool(true),
            Doc::Bool(false),
            Doc::Null,
            Doc::Number(decimal(4200, 2, true)),
            Doc::Array(vec![Doc::Number(decimal(42, 0, false)), Doc::String(String::new())]),
            Doc::Object(vec![
                ("k".to_string(), Doc::String("v".to_string())),
                ("l".to_string(), Doc::Null),
            ]),
        ])
    );
}

#[test]
fn scenario_of_string_bool_and_nested_array_reads_back() {
    let mut a = ArrayBuilder::try_new(3).unwrap();
    a.push_string("abc").unwrap();
    a.push_bool(true).unwrap();
    let mut b = a.push_array(1).unwrap();
    b.push_number(number(42, 0, false)).unwrap();
    b.finish().unwrap();
    let document = a.finish().unwrap();
    assert_eq!(
        read_document(document.as_bytes()),
        Doc::Array(vec![
            Doc::String("abc".to_string()),
            Doc::Bool(true),
            Doc::Array(vec![Doc::Number(decimal(42, 0, false))]),
        ])
    );
}

#[test]
fn object_reads_back() {
    let mut o = ObjectBuilder::try_new(5, false).unwrap();
    o.push_number("pi", number(314159, 5, false)).unwrap();
    o.push_bool("yes", true).unwrap();
    let mut a = o.push_array("list", 3).unwrap();
    a.push_null().unwrap();
    let mut p = a.push_object(1, false).unwrap();
    p.push_string("deep", "down").unwrap();
    p.finish().unwrap();
    a.push_string("\u{1f600}").unwrap();
    a.finish().unwrap();
    o.push_string("", "empty key").unwrap();
    let q = o.push_object("none", 0, true).unwrap();
    q.finish().unwrap();
    let document = o.finish().unwrap();
    assert_eq!(
        read_document(document.as_bytes()),
        Doc::Object(vec![
            ("pi".to_string(), Doc::Number(decimal(314159, 5, false))),
            ("yes".to_string(), Doc::Bool(true)),
            (
                "list".to_string(),
                Doc::Array(vec![
                    Doc::Null,
                    Doc::Object(vec![("deep".to_string(), Doc::String("down".to_string()))]),
                    Doc::String("\u{1f600}".to_string()),
                ])
            ),
            (String::new(), Doc::String("empty key".to_string())),
            ("none".to_string(), Doc::Object(Vec::new())),
        ])
    );
}

#[test]
fn deep_nesting_reads_back() {
    let depth = 64;
    let mut top = ArrayBuilder::try_new(1).unwrap();
    fn nest(parent: &mut yason::ArrayRefBuilder<'_>, depth: usize) {
        if depth == 0 {
            parent.push_string("bottom").unwrap();
        } else {
            let mut child = parent.push_array(1).unwrap();
            nest(&mut child, depth - 1);
            child.finish().unwrap();
        }
    }
    {
        let mut first = top.push_array(1).unwrap();
        nest(&mut first, depth);
        first.finish().unwrap();
    }
    let document = top.finish().unwrap();
    let mut doc = read_document(document.as_bytes());
    let mut levels = 0;
    while let Doc::Array(mut items) = doc {
        assert_eq!(items.len(), 1);
        doc = items.pop().unwrap();
        levels += 1;
    }
    assert_eq!(levels, depth + 2);
    assert_eq!(doc, Doc::String("bottom".to_string()));
}
