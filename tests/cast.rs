use projection_pushdown::cast::{
    binview_to_dictionary, utf8view_to_dictionary, binview_to_primitive, days_since_epoch, utf8view_to_date32, utf8view_to_primitive,
    utf8view_to_utf8, view_to_binary,
};

#[test]
fn binary_layout() {
    let a = vec![Some(vec![1u8, 2]), None, Some(vec![3u8])];
    let out = view_to_binary(&a);
    assert_eq!(out.offsets, vec![0, 2, 2, 3]);
    assert_eq!(out.values, vec![1, 2, 3]);
    assert_eq!(out.validity, vec![true, false, true]);
    let empty = view_to_binary(&vec![]);
    assert_eq!(empty.offsets, vec![0]);
    assert!(empty.values.is_empty());
}

#[test]
fn utf8_layout() {
    let a = vec![Some("ab".to_string()), None, Some("\u{e9}".to_string())];
    let out = utf8view_to_utf8(&a);
    assert_eq!(out.offsets, vec![0, 2, 2, 4]);
    assert_eq!(out.values, vec![97, 98, 0xc3, 0xa9]);
    assert_eq!(out.validity, vec![true, false, true]);
}

#[test]
fn integers_from_bytes() {
    let a = vec![
        Some(vec![1u8, 0, 0, 0, 0, 0, 0, 0]),
        Some(vec![1u8, 2]),
        None,
        Some(vec![0xffu8; 8]),
    ];
    assert_eq!(binview_to_primitive::<i64>(&a, true), vec![Some(1), None, None, Some(-1)]);
    assert_eq!(binview_to_primitive::<i64>(&a, false), vec![Some(1 << 56), None, None, Some(-1)]);
    let b = vec![Some(vec![0u8, 0, 0, 0, 0, 0, 1, 2])];
    assert_eq!(binview_to_primitive::<i64>(&b, false), vec![Some(258)]);
}

#[test]
fn integers_from_text() {
    let a = vec![
        Some("42".to_string()),
        Some("-7".to_string()),
        Some("+3".to_string()),
        Some("x1".to_string()),
        Some("".to_string()),
        None,
        Some("99999999999999999999".to_string()),
    ];
    assert_eq!(
        utf8view_to_primitive::<i64>(&a),
        vec![Some(42), Some(-7), Some(3), None, None, None, None]
    );
}

#[test]
fn dates_from_text() {
    let a = vec![
        Some("1970-01-02".to_string()),
        Some("2000-01-01".to_string()),
        Some("1969-12-31".to_string()),
        Some("not a date".to_string()),
        None,
    ];
    assert_eq!(utf8view_to_date32(&a), vec![Some(1), Some(10_957), Some(-1), None, None]);
    assert_eq!(days_since_epoch(719_163), 0);
}

#[test]
fn dictionary_packing() {
    let a = vec![Some(vec![1u8]), None, Some(vec![2u8]), Some(vec![1u8]), Some(vec![])];
    let d = binview_to_dictionary(&a).unwrap();
    assert_eq!(d.values, vec![vec![1u8], vec![2u8], vec![]]);
    assert_eq!(d.keys, vec![Some(0), None, Some(1), Some(0), Some(2)]);
    let t = vec![Some("x".to_string()), Some("y".to_string()), Some("x".to_string()), None];
    let e = utf8view_to_dictionary(&t).unwrap();
    assert_eq!(e.values, vec![b"x".to_vec(), b"y".to_vec()]);
    assert_eq!(e.keys, vec![Some(0), Some(1), Some(0), None]);
    let empty = binview_to_dictionary(&vec![]).unwrap();
    assert!(empty.keys.is_empty() && empty.values.is_empty());
}

#[test]
fn integers_of_other_widths_from_bytes() {
    let a = vec![Some(vec![0xffu8, 0x7f]), Some(vec![0x00u8, 0x80]), Some(vec![1u8])];
    assert_eq!(binview_to_primitive::<i16>(&a, true), vec![Some(32767), Some(-32768), None]);
    assert_eq!(binview_to_primitive::<u16>(&a, true), vec![Some(32767), Some(32768), None]);
    assert_eq!(binview_to_primitive::<u16>(&a, false), vec![Some(0xff7f), Some(0x0080), None]);
    assert_eq!(binview_to_primitive::<i8>(&a, true), vec![None, None, Some(1)]);
    let b = vec![Some(vec![0xffu8; 4]), Some(vec![0xffu8; 8])];
    assert_eq!(binview_to_primitive::<i32>(&b, true), vec![Some(-1), None]);
    assert_eq!(binview_to_primitive::<u32>(&b, true), vec![Some(u32::MAX), None]);
    assert_eq!(binview_to_primitive::<u64>(&b, false), vec![None, Some(u64::MAX)]);
    assert_eq!(binview_to_primitive::<u8>(&vec![Some(vec![200u8])], true), vec![Some(200)]);
}

#[test]
fn integers_of_other_widths_from_text() {
    let a = vec![
        Some("127".to_string()),
        Some("128".to_string()),
        Some("-128".to_string()),
        Some("-0".to_string()),
        Some("+5".to_string()),
        Some("-".to_string()),
    ];
    assert_eq!(
        utf8view_to_primitive::<i8>(&a),
        vec![Some(127), None, Some(-128), Some(0), Some(5), None]
    );
    assert_eq!(
        utf8view_to_primitive::<u8>(&a),
        vec![Some(127), Some(128), None, None, Some(5), None]
    );
    let b = vec![
        Some("18446744073709551615".to_string()),
        Some("18446744073709551616".to_string()),
        Some("-9223372036854775808".to_string()),
        Some("0004294967295".to_string()),
    ];
    assert_eq!(utf8view_to_primitive::<u64>(&b), vec![Some(u64::MAX), None, None, Some(4294967295)]);
    assert_eq!(utf8view_to_primitive::<i64>(&b), vec![None, None, Some(i64::MIN), Some(4294967295)]);
    assert_eq!(utf8view_to_primitive::<u32>(&b), vec![None, None, None, Some(u32::MAX)]);
    assert_eq!(utf8view_to_primitive::<i16>(&b), vec![None, None, None, None]);
}
