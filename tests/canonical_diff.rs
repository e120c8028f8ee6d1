use move_dialects::address::AccountAddress;
use move_dialects::canonical::canonical_diff;
use move_dialects::diff::{diff_to_json, DiffEntry, LayoutKind, Op, ResourceType, Value};

fn entry(address: &str, module: &str, name: &str, op: Op) -> DiffEntry {
    let layout = match &op {
        Op::SetValue(vs) => vec![LayoutKind::U8; vs.len()],
        Op::Delete => vec![LayoutKind::U8],
    };
    DiffEntry {
        ty: ResourceType {
            address: AccountAddress::from_hex_literal(address.as_bytes()).unwrap(),
            module: module.as_bytes().to_vec(),
            name: name.as_bytes().to_vec(),
            ty_args: vec![],
            layout,
        },
        op,
    }
}

fn set(values: &[u8]) -> Op {
    Op::SetValue(values.iter().map(|v| Value::U8(*v)).collect())
}

#[test]
fn new_record_gives_one_entry() {
    let effects = vec![entry("0x111111111111111111111111", "Record", "T", set(&[10, 20]))];
    let diff = canonical_diff(effects, &vec![]);
    assert_eq!(diff.len(), 1);
    assert_eq!(diff[0], entry("0x111111111111111111111111", "Record", "T", set(&[10, 20])));
}

#[test]
fn changed_record_over_genesis_gives_new_values() {
    let genesis = vec![entry("0x111111111111111111111111", "Record", "T", set(&[10, 20]))];
    let effects = vec![entry("0x111111111111111111111111", "Record", "T", set(&[11, 20]))];
    let diff = canonical_diff(effects, &genesis);
    assert_eq!(diff, vec![entry("0x111111111111111111111111", "Record", "T", set(&[11, 20]))]);
    assert!(String::from_utf8(diff_to_json(&diff)).unwrap().ends_with("\"values\":[11,20]}}]"));
}

#[test]
fn unchanged_record_gives_no_entry() {
    let genesis = vec![entry("0x1", "M", "T", set(&[10]))];
    let effects = vec![entry("0x1", "M", "T", set(&[10]))];
    assert!(canonical_diff(effects, &genesis).is_empty());
}

#[test]
fn deletions_give_no_entry() {
    let genesis = vec![entry("0x1", "M", "T", set(&[10]))];
    let effects = vec![entry("0x1", "M", "T", Op::Delete), entry("0x2", "M", "T", set(&[1]))];
    assert_eq!(canonical_diff(effects, &genesis), vec![entry("0x2", "M", "T", set(&[1]))]);
}

#[test]
fn entries_are_ordered_by_address_then_module_then_name() {
    let effects = vec![
        entry("0x2", "A", "T", set(&[4])),
        entry("0x1", "MA", "T", set(&[3])),
        entry("0x1", "M", "U", set(&[2])),
        entry("0x1", "M", "T", set(&[1])),
    ];
    let diff = canonical_diff(effects, &vec![]);
    assert_eq!(
        diff,
        vec![
            entry("0x1", "M", "T", set(&[1])),
            entry("0x1", "M", "U", set(&[2])),
            entry("0x1", "MA", "T", set(&[3])),
            entry("0x2", "A", "T", set(&[4])),
        ]
    );
}

#[test]
fn reordered_effects_give_identical_bytes() {
    let make = |order: &[usize]| {
        let all = [("0x3", "B"), ("0x1", "C"), ("0x2", "A")];
        let effects: Vec<DiffEntry> =
            order.iter().map(|i| entry(all[*i].0, all[*i].1, "T", set(&[*i as u8]))).collect();
        diff_to_json(&canonical_diff(effects, &vec![]))
    };
    let a = make(&[0, 1, 2]);
    assert_eq!(a, make(&[2, 1, 0]));
    assert_eq!(a, make(&[1, 0, 2]));
    assert_eq!(a, make(&[0, 1, 2]));
}

#[test]
fn no_effects_give_empty_diff() {
    assert!(canonical_diff(vec![], &vec![entry("0x1", "M", "T", set(&[1]))]).is_empty());
}

#[test]
fn entries_of_one_type_keep_their_order() {
    let effects = vec![
        entry("0x2", "M", "T", set(&[1])),
        entry("0x1", "M", "T", set(&[9])),
        entry("0x2", "M", "T", set(&[2])),
        entry("0x1", "M", "T", set(&[8])),
    ];
    assert_eq!(
        canonical_diff(effects, &vec![]),
        vec![
            entry("0x1", "M", "T", set(&[9])),
            entry("0x1", "M", "T", set(&[8])),
            entry("0x2", "M", "T", set(&[1])),
            entry("0x2", "M", "T", set(&[2])),
        ]
    );
}
