use move_dialects::address::AccountAddress;
use move_dialects::basis::{select_basis, SourceType};
use move_dialects::dialect::{
    resolve_address, AddressError, DialectName, Pontem, PontemDialect,
};
use move_dialects::rewrite::{rewrite, OffsetRecord};

const ALICE_SS58: &str = "5GrwvaEF5zXb26Fz9rcQpDWS57CtERHpNehXCPcNoHGKutQY";
const ALICE_HEX: &str = "0xd43593c715fdd31c61141abd04a99fd6822c8558854ccde39a5684e7a56da27d";
const WALLET: &str = "wallet1me0cdn52672y7feddy7tgcj6j4dkzq2su745vh";

fn hex_bytes(s: &str) -> Vec<u8> {
    (0..s.len() / 2)
        .map(|i| u8::from_str_radix(&s[2 * i..2 * i + 2], 16).unwrap())
        .collect()
}

#[test]
fn short_hex_literal_is_padded_on_the_left() {
    let a = AccountAddress::from_hex_literal(b"0x1").unwrap();
    let mut expected = vec![0u8; 32];
    expected[31] = 1;
    assert_eq!(a.to_bytes(), expected);
    let b = AccountAddress::from_hex_literal(b"0xABc").unwrap();
    let mut expected = vec![0u8; 32];
    expected[30] = 0x0a;
    expected[31] = 0xbc;
    assert_eq!(b.to_bytes(), expected);
}

#[test]
fn malformed_hex_literals_are_rejected() {
    assert!(AccountAddress::from_hex_literal(b"0x").is_none());
    assert!(AccountAddress::from_hex_literal(b"1x01").is_none());
    assert!(AccountAddress::from_hex_literal(b"0x0g").is_none());
    let long = format!("0x{}", "1".repeat(65));
    assert!(AccountAddress::from_hex_literal(long.as_bytes()).is_none());
    let full = format!("0x{}", "f".repeat(64));
    assert_eq!(
        AccountAddress::from_hex_literal(full.as_bytes()).unwrap().to_bytes(),
        vec![0xffu8; 32]
    );
}

#[test]
fn rendered_address_is_full_width_lowercase() {
    let a = AccountAddress::from_hex_literal(b"0x1").unwrap();
    let text = String::from_utf8(a.to_hex_literal()).unwrap();
    assert_eq!(text, format!("0x{}1", "0".repeat(63)));
    assert_eq!(text.len(), 66);
}

#[test]
fn every_dialect_resolves_the_rendered_form() {
    let bytes: Vec<u8> = (0u8..32).map(|i| i.wrapping_mul(37).wrapping_add(5)).collect();
    let a = AccountAddress::from_bytes(&bytes).unwrap();
    let text = a.to_hex_literal();
    for d in [DialectName::Libra, DialectName::DFinance, DialectName::Pontem] {
        assert_eq!(resolve_address(d, &text).unwrap().to_bytes(), bytes);
    }
}

#[test]
fn from_bytes_needs_full_width() {
    assert!(AccountAddress::from_bytes(&[1u8; 31]).is_none());
    assert!(AccountAddress::from_bytes(&[1u8; 33]).is_none());
    assert_eq!(AccountAddress::from_bytes(&[7u8; 32]).unwrap().to_bytes(), vec![7u8; 32]);
}

#[test]
fn dialect_names_parse() {
    assert_eq!("libra".parse::<DialectName>().unwrap(), DialectName::Libra);
    assert_eq!("dfinance".parse::<DialectName>().unwrap(), DialectName::DFinance);
    assert_eq!("pontem".parse::<DialectName>().unwrap(), DialectName::Pontem);
    let err = "Pontem".parse::<DialectName>().unwrap_err();
    assert_eq!(err.name, b"Pontem".to_vec());
    assert!("".parse::<DialectName>().is_err());
}

#[test]
fn get_dialect_keeps_the_name() {
    for d in [DialectName::Libra, DialectName::DFinance, DialectName::Pontem] {
        assert_eq!(d.get_dialect().dialect_name(), d);
        assert_eq!(d.get_dialect().name().parse::<DialectName>().unwrap(), d);
    }
    assert_eq!(DialectName::Pontem.get_dialect().name(), "pontem");
    assert_eq!(DialectName::Libra.get_dialect().name(), "libra");
}

#[test]
fn short_base58_tokens_are_not_ss58() {
    // a prefix of a valid literal decodes, but to fewer than 35 bytes
    assert!(Pontem.parse_address(&ALICE_SS58[..34]).is_err());
    assert!(Pontem.parse_address("main").is_err());
}

#[test]
fn pontem_resolves_ss58_literal() {
    let a = Pontem.parse_address(ALICE_SS58).unwrap();
    assert_eq!(a.to_bytes(), hex_bytes(&ALICE_HEX[2..]));
    assert_eq!(Pontem.name(), "pontem");
}

#[test]
fn pontem_resolves_hex_literal() {
    let a = Pontem.parse_address(ALICE_HEX).unwrap();
    assert_eq!(a.to_bytes(), hex_bytes(&ALICE_HEX[2..]));
}

#[test]
fn pontem_rejects_bad_checksum() {
    let broken = ALICE_SS58.replace("utQY", "utQZ");
    let err = Pontem.parse_address(&broken).unwrap_err();
    assert_eq!(
        err,
        AddressError { literal: broken.as_bytes().to_vec(), dialect: DialectName::Pontem }
    );
    assert!(Pontem.parse_address("hello").is_err());
}

#[test]
fn libra_does_not_read_ss58() {
    let d = DialectName::Libra.get_dialect();
    assert!(d.parse_address(ALICE_SS58).is_err());
    assert!(d.parse_address("0x1").is_ok());
}

#[test]
fn dfinance_resolves_wallet_literal() {
    let d = DialectName::DFinance.get_dialect();
    let a = d.parse_address(WALLET).unwrap();
    let mut expected = hex_bytes("de5f86ce8ad7944f272d693cb4625a955b610150");
    expected.extend_from_slice(&[0u8; 12]);
    assert_eq!(a.to_bytes(), expected);
    let broken = WALLET.replace("45vh", "45vq");
    assert!(d.parse_address(&broken).is_err());
}

#[test]
fn pontem_dialect_normalizes_ss58_only() {
    let a = PontemDialect.normalize_account_address(ALICE_SS58).unwrap();
    assert_eq!(a.to_bytes(), hex_bytes(&ALICE_HEX[2..]));
    assert!(PontemDialect.normalize_account_address(ALICE_HEX).is_err());
    assert_eq!(PontemDialect.name(), "pontem");
}

#[test]
fn pontem_dialect_adaptation_is_identity() {
    let mut bytes = vec![0xa1u8, 0x1c, 0xeb, 0x0b, 1, 0, 0, 0];
    let copy = bytes.clone();
    assert!(PontemDialect.adapt_to_basis(&mut bytes).is_ok());
    assert_eq!(bytes, copy);
    assert!(PontemDialect.adapt_to_target(&mut bytes).is_ok());
    assert_eq!(bytes, copy);
}

#[test]
fn rewrite_replaces_ss58_and_maps_positions_back() {
    let source = format!("script {{ fun main() {{ {}::M::f(10); }} }}", ALICE_SS58);
    let r = rewrite(DialectName::Pontem, source.as_bytes());
    let expected = format!("script {{ fun main() {{ {}::M::f(10); }} }}", ALICE_HEX);
    assert_eq!(String::from_utf8(r.text.clone()).unwrap(), expected);
    let start = source.find(ALICE_SS58).unwrap();
    let end = start + ALICE_SS58.len();
    assert_eq!(
        r.map.records,
        vec![OffsetRecord { original: end, rewritten: start + ALICE_HEX.len() }]
    );
    // before the literal positions pass through unchanged
    assert_eq!(r.map.translate(3), Some(3));
    assert_eq!(r.map.translate(start), Some(start));
    // after it they shift back by the growth of the literal
    let after = start + ALICE_HEX.len();
    assert_eq!(r.map.translate(after), Some(end));
    let f_pos = expected.find("::M::f").unwrap();
    assert_eq!(r.map.translate(f_pos), Some(source.find("::M::f").unwrap()));
}

#[test]
fn rewrite_of_two_literals_records_each() {
    let source = format!("{} + {}", ALICE_SS58, ALICE_SS58);
    let r = PontemDialect.replace_addresses(&source);
    assert_eq!(
        String::from_utf8(r.text.clone()).unwrap(),
        format!("{} + {}", ALICE_HEX, ALICE_HEX)
    );
    assert_eq!(r.map.records.len(), 2);
    assert_eq!(r.map.records[1].original, source.len());
    assert_eq!(r.map.records[1].rewritten, r.text.len());
    let plus = r.text.iter().position(|b| *b == b'+').unwrap();
    assert_eq!(r.map.translate(plus), Some(source.find('+').unwrap()));
}

#[test]
fn rewrite_of_canonical_text_is_a_no_op() {
    let source = "address 0x1 { module M { public fun f(): u8 { 10 } } }";
    for d in [DialectName::Libra, DialectName::DFinance, DialectName::Pontem] {
        let r = rewrite(d, source.as_bytes());
        assert_eq!(r.text, source.as_bytes().to_vec());
        assert!(r.map.records.is_empty());
        assert_eq!(r.map.translate(7), Some(7));
    }
}

#[test]
fn rewrite_dfinance_wallet_literal() {
    let source = format!("{}::M::get_t(10);", WALLET);
    let r = DialectName::DFinance.get_dialect().replace_addresses(&source);
    let text = String::from_utf8(r.text.clone()).unwrap();
    assert_eq!(
        text,
        format!("0xde5f86ce8ad7944f272d693cb4625a955b610150{}::M::get_t(10);", "0".repeat(24))
    );
    assert_eq!(r.map.records, vec![OffsetRecord { original: WALLET.len(), rewritten: 66 }]);
}

#[test]
fn rewrite_leaves_embedded_tokens_alone() {
    let source = format!("x_{} \"{}a\"", ALICE_SS58, ALICE_SS58);
    let r = rewrite(DialectName::Pontem, source.as_bytes());
    assert_eq!(r.text, source.as_bytes().to_vec());
    assert!(r.map.records.is_empty());
}

#[test]
fn rewrite_of_empty_text() {
    let r = rewrite(DialectName::Pontem, b"");
    assert!(r.text.is_empty());
    assert!(r.map.records.is_empty());
    assert_eq!(r.map.translate(0), Some(0));
}

#[test]
fn canonical_basis_is_left_unchanged() {
    let mut bytes = vec![0xa1u8, 0x1c, 0xeb, 0x0b, 2, 0, 0, 0, 9];
    let copy = bytes.clone();
    assert_eq!(select_basis(&mut bytes, b"pont").unwrap(), None);
    assert_eq!(bytes, copy);
}

#[test]
fn known_forks_are_selected() {
    let mut bytes = vec![1u8, 2, 3];
    assert_eq!(select_basis(&mut bytes, b"diem").unwrap(), Some(SourceType::Diem));
    assert_eq!(select_basis(&mut bytes, b"dfinance").unwrap(), Some(SourceType::Dfinance));
    assert_eq!(bytes, vec![1u8, 2, 3]);
}

#[test]
fn unknown_fork_fails_and_leaves_bytes() {
    let mut bytes = vec![1u8, 2, 3];
    let err = select_basis(&mut bytes, b"libra2").unwrap_err();
    assert_eq!(err.fork, b"libra2".to_vec());
    assert_eq!(bytes, vec![1u8, 2, 3]);
}
