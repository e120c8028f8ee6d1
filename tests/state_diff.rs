use move_dialects::address::AccountAddress;
use move_dialects::diff::{diff_to_json, DiffEntry, LayoutKind, Op, ResourceType, Value};

fn record_type(address: &str, module: &str, name: &str, layout: Vec<LayoutKind>) -> ResourceType {
    ResourceType {
        address: AccountAddress::from_hex_literal(address.as_bytes()).unwrap(),
        module: module.as_bytes().to_vec(),
        name: name.as_bytes().to_vec(),
        ty_args: vec![],
        layout,
    }
}

fn json(e: &DiffEntry) -> String {
    String::from_utf8(e.to_json()).unwrap()
}

#[test]
fn created_record_serializes_canonically() {
    let e = DiffEntry {
        ty: record_type("0x111111111111111111111111", "Record", "T", vec![LayoutKind::U8, LayoutKind::U8]),
        op: Op::SetValue(vec![Value::U8(10), Value::U8(20)]),
    };
    let expected = format!(
        "{{\"ty\":{{\"address\":\"0x{}111111111111111111111111\",\"module\":\"Record\",\"name\":\"T\",\"ty_args\":[],\"layout\":[\"U8\",\"U8\"]}},\"op\":{{\"type\":\"SetValue\",\"values\":[10,20]}}}}",
        "0".repeat(40)
    );
    assert_eq!(json(&e), expected);
}

#[test]
fn incremented_record_serializes_canonically() {
    let e = DiffEntry {
        ty: record_type("0x111111111111111111111111", "Record", "T", vec![LayoutKind::U8, LayoutKind::U8]),
        op: Op::SetValue(vec![Value::U8(11), Value::U8(20)]),
    };
    assert!(json(&e).ends_with("\"op\":{\"type\":\"SetValue\",\"values\":[11,20]}}"));
}

#[test]
fn diff_is_a_json_array() {
    let e = DiffEntry {
        ty: record_type("0x1", "M", "T", vec![LayoutKind::U8]),
        op: Op::SetValue(vec![Value::U8(10)]),
    };
    let expected = format!(
        "[{{\"ty\":{{\"address\":\"0x{}1\",\"module\":\"M\",\"name\":\"T\",\"ty_args\":[],\"layout\":[\"U8\"]}},\"op\":{{\"type\":\"SetValue\",\"values\":[10]}}}}]",
        "0".repeat(63)
    );
    assert_eq!(String::from_utf8(diff_to_json(&vec![e])).unwrap(), expected);
    assert_eq!(diff_to_json(&vec![]), b"[]".to_vec());
}

#[test]
fn every_value_kind_serializes() {
    let e = DiffEntry {
        ty: ResourceType {
            address: AccountAddress::from_hex_literal(b"0x2").unwrap(),
            module: b"Q\"x".to_vec(),
            name: b"a\\b\n".to_vec(),
            ty_args: vec![b"u8".to_vec(), b"0x1::M::T".to_vec()],
            layout: vec![
                LayoutKind::U64,
                LayoutKind::U128,
                LayoutKind::Bool,
                LayoutKind::Bool,
                LayoutKind::Address,
            ],
        },
        op: Op::SetValue(vec![
            Value::U64(0),
            Value::U128(u128::MAX),
            Value::Bool(true),
            Value::Bool(false),
            Value::Address(AccountAddress::from_hex_literal(b"0xff").unwrap()),
        ]),
    };
    let text = json(&e);
    assert!(text.contains("\"module\":\"Q\\\"x\",\"name\":\"a\\\\b\\u000a\""));
    assert!(text.contains("\"ty_args\":[\"u8\",\"0x1::M::T\"]"));
    assert!(text.contains("\"layout\":[\"U64\",\"U128\",\"Bool\",\"Bool\",\"Address\"]"));
    assert!(text.contains(&format!(
        "\"values\":[0,340282366920938463463374607431768211455,true,false,\"0x{}ff\"]",
        "0".repeat(62)
    )));
}

#[test]
fn delete_serializes() {
    let e = DiffEntry { ty: record_type("0x1", "M", "T", vec![LayoutKind::U8]), op: Op::Delete };
    assert!(json(&e).ends_with(",\"op\":{\"type\":\"Delete\"}}"));
}

#[test]
fn serialization_is_repeatable() {
    let make = || DiffEntry {
        ty: record_type("0x1", "M", "T", vec![LayoutKind::U8]),
        op: Op::SetValue(vec![Value::U8(10)]),
    };
    let a = diff_to_json(&vec![make(), make()]);
    let b = diff_to_json(&vec![make(), make()]);
    assert_eq!(a, b);
}
