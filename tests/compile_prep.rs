use move_dialects::address::AccountAddress;
use move_dialects::compile::{partition_units, prepare_compilation, translate_spans, CompiledUnit, Span};
use move_dialects::dialect::DialectName;

const ALICE_SS58: &str = "5GrwvaEF5zXb26Fz9rcQpDWS57CtERHpNehXCPcNoHGKutQY";

#[test]
fn sources_are_rewritten_and_sender_resolved() {
    let sources = vec![
        format!("script {{ fun main() {{ {}::M::f(); }} }}", ALICE_SS58).into_bytes(),
        b"address 0x1 { module M { public fun f() {} } }".to_vec(),
    ];
    let p = prepare_compilation(DialectName::Pontem, &sources, ALICE_SS58.as_bytes()).unwrap();
    assert_eq!(p.units.len(), 2);
    assert!(String::from_utf8(p.units[0].text.clone())
        .unwrap()
        .contains("0xd43593c715fdd31c61141abd04a99fd6822c8558854ccde39a5684e7a56da27d::M::f()"));
    assert_eq!(p.units[1].text, sources[1]);
    assert!(p.units[1].map.records.is_empty());
    assert_eq!(p.sender.to_bytes()[0], 0xd4);
}

#[test]
fn bad_sender_fails_the_preparation() {
    let sources = vec![b"script { fun main() {} }".to_vec()];
    let err = prepare_compilation(DialectName::Libra, &sources, b"0xzz").err().unwrap();
    assert_eq!(err.literal, b"0xzz".to_vec());
    assert_eq!(err.dialect, DialectName::Libra);
}

#[test]
fn diagnostic_spans_point_into_original_sources() {
    let source = format!("{}::M::nope();", ALICE_SS58);
    let sources = vec![source.clone().into_bytes()];
    let p = prepare_compilation(DialectName::Pontem, &sources, b"0x1").unwrap();
    let text = String::from_utf8(p.units[0].text.clone()).unwrap();
    let start = text.find("nope").unwrap();
    let maps = vec![p.units[0].map.clone()];
    let spans = vec![
        Span { file: 0, start, end: start + 4 },
        Span { file: 0, start: 0, end: 2 },
        Span { file: 3, start, end: start + 4 },
    ];
    let out = translate_spans(&maps, &spans);
    let orig = source.find("nope").unwrap();
    assert_eq!(out[0], Span { file: 0, start: orig, end: orig + 4 });
    assert_eq!(out[1], Span { file: 0, start: 0, end: 2 });
    assert_eq!(out[2], spans[2]);
}

#[test]
fn units_split_into_modules_and_scripts() {
    let module = |n: u8| CompiledUnit::Module {
        address: AccountAddress::from_bytes(&[n; 32]).unwrap(),
        name: vec![b'M', n],
        bytecode: vec![n],
    };
    let script = |n: u8| CompiledUnit::Script { bytecode: vec![n] };
    let (modules, scripts) = partition_units(vec![script(1), module(2), script(3), module(4)]);
    assert_eq!(modules, vec![module(2), module(4)]);
    assert_eq!(scripts, vec![script(1), script(3)]);
    let (modules, scripts) = partition_units(vec![]);
    assert!(modules.is_empty() && scripts.is_empty());
}
