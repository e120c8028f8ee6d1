use vstd::prelude::*;

use crate::address::{
    is_hex_literal, hex_literal_address, render_hex, AccountAddress, ADDRESS_LENGTH,
    lemma_hex_round_trip,
};
use crate::bech32_wallet::{wallet_address, wallet_to_address};
use crate::ss58::{ss58_address, ss58_to_address};
use crate::rewrite::{records_from, rewrite, rewritten_from, Rewrite};
use vstd::string::StringSliceAdditionalSpecFns;

verus! {

/// The supported address dialects.
#[derive(Debug, Clone, Copy, PartialEq, Eq, Structural)]
pub enum DialectName {
    Libra,
    DFinance,
    Pontem,
}

/// A dialect name that is not one of `libra`, `dfinance`, `pontem`.
#[derive(Debug, PartialEq, Eq)]
pub struct DialectError {
    pub name: Vec<u8>,
}

/// An address literal that the dialect cannot resolve.
#[derive(Debug, PartialEq, Eq)]
pub struct AddressError {
    pub literal: Vec<u8>,
    pub dialect: DialectName,
}

/// The bytes of `libra`.
pub open spec fn libra_name() -> Seq<u8> {
    seq![108u8, 105u8, 98u8, 114u8, 97u8]
}

/// The bytes of `dfinance`.
pub open spec fn dfinance_name() -> Seq<u8> {
    seq![100u8, 102u8, 105u8, 110u8, 97u8, 110u8, 99u8, 101u8]
}

/// The bytes of `pontem`.
pub open spec fn pontem_name() -> Seq<u8> {
    seq![112u8, 111u8, 110u8, 116u8, 101u8, 109u8]
}

/// The name of a dialect.
pub open spec fn name_bytes(d: DialectName) -> Seq<u8> {
    match d {
        DialectName::Libra => libra_name(),
        DialectName::DFinance => dfinance_name(),
        DialectName::Pontem => pontem_name(),
    }
}

/// A dialect's name selects that dialect again.
pub proof fn lemma_name_selects_dialect(d: DialectName)
    ensures
        dialect_named(name_bytes(d)) == Some(d),
{
    assert(libra_name() != dfinance_name()) by {
        assert(libra_name().len() != dfinance_name().len());
    }
    assert(libra_name() != pontem_name()) by {
        assert(libra_name().len() != pontem_name().len());
    }
    assert(dfinance_name() != pontem_name()) by {
        assert(dfinance_name().len() != pontem_name().len());
    }
}

/// The dialect that a name selects.
pub open spec fn dialect_named(s: Seq<u8>) -> Option<DialectName> {
    if s == libra_name() {
        Some(DialectName::Libra)
    } else if s == dfinance_name() {
        Some(DialectName::DFinance)
    } else if s == pontem_name() {
        Some(DialectName::Pontem)
    } else {
        None
    }
}

/// The address that a dialect-specific literal form denotes (not a hex literal).
pub open spec fn literal_address(d: DialectName, s: Seq<u8>) -> Option<Seq<u8>> {
    match d {
        DialectName::Libra => None,
        DialectName::DFinance => wallet_address(s),
        DialectName::Pontem => ss58_address(s),
    }
}

/// The address that a dialect reads in a literal: its own form first, else a hex literal.
pub open spec fn resolve(d: DialectName, s: Seq<u8>) -> Option<Seq<u8>> {
    match literal_address(d, s) {
        Some(a) => Some(a),
        None => if is_hex_literal(s) {
            Some(hex_literal_address(s))
        } else {
            None
        },
    }
}

/// Byte-wise equality of two slices.
pub fn bytes_equal(a: &[u8], b: &[u8]) -> (r: bool)
    ensures
        r == (a@ == b@),
{
    if a.len() != b.len() {
        return false;
    }
    let mut i: usize = 0;
    while i < a.len()
        invariant
            i <= a@.len(),
            a@.len() == b@.len(),
            a@.subrange(0, i as int) == b@.subrange(0, i as int),
        decreases a@.len() - i,
    {
        if a[i] != b[i] {
            assert(a@[i as int] != b@[i as int]);
            return false;
        }
        i = i + 1;
        assert(a@.subrange(0, i as int) =~= a@.subrange(0, i - 1) + seq![a@[i - 1]]);
        assert(b@.subrange(0, i as int) =~= b@.subrange(0, i - 1) + seq![b@[i - 1]]);
    }
    assert(a@ =~= a@.subrange(0, i as int));
    assert(b@ =~= b@.subrange(0, i as int));
    true
}

impl DialectName {
    /// Selects a dialect by its lowercase name.
    pub fn from_name(s: &[u8]) -> (r: Result<DialectName, DialectError>)
        ensures
            match dialect_named(s@) {
                Some(d) => r == Ok::<DialectName, DialectError>(d),
                None => r matches Err(e) && e.name@ == s@,
            },
    {
        let libra: Vec<u8> = vec![108u8, 105u8, 98u8, 114u8, 97u8];
        let dfinance: Vec<u8> = vec![100u8, 102u8, 105u8, 110u8, 97u8, 110u8, 99u8, 101u8];
        let pontem: Vec<u8> = vec![112u8, 111u8, 110u8, 116u8, 101u8, 109u8];
        assert(libra@ =~= libra_name());
        assert(dfinance@ =~= dfinance_name());
        assert(pontem@ =~= pontem_name());
        if bytes_equal(s, libra.as_slice()) {
            Ok(DialectName::Libra)
        } else if bytes_equal(s, dfinance.as_slice()) {
            Ok(DialectName::DFinance)
        } else if bytes_equal(s, pontem.as_slice()) {
            Ok(DialectName::Pontem)
        } else {
            Err(DialectError { name: crate::address::copy_bytes(s) })
        }
    }

    /// The dialect's operations.
    pub fn get_dialect(&self) -> (r: Dialect)
        ensures
            r.kind() == *self,
    {
        match self {
            DialectName::Libra => Dialect::Diem(Diem),
            DialectName::DFinance => Dialect::DFinance(DFinance),
            DialectName::Pontem => Dialect::Pontem(Pontem),
        }
    }
}

impl std::str::FromStr for DialectName {
    type Err = DialectError;

    fn from_str(s: &str) -> (r: Result<DialectName, DialectError>)
        ensures
            match dialect_named(s.spec_bytes()) {
                Some(d) => r == Ok::<DialectName, DialectError>(d),
                None => r matches Err(e) && e.name@ == s.spec_bytes(),
            },
    {
        DialectName::from_name(s.as_bytes())
    }
}

/// Reads a literal in dialect `d`: its own form first, else a hex literal.
pub fn resolve_address(d: DialectName, s: &[u8]) -> (r: Result<AccountAddress, AddressError>)
    ensures
        match resolve(d, s@) {
            Some(a) => r matches Ok(x) && x@ == a,
            None => r matches Err(e) && e.literal@ == s@ && e.dialect == d,
        },
{
    let own = dialect_literal(d, s);
    match own {
        Some(a) => Ok(a),
        None => match AccountAddress::from_hex_literal(s) {
            Some(a) => Ok(a),
            None => Err(AddressError { literal: crate::address::copy_bytes(s), dialect: d }),
        },
    }
}

/// Reads a literal in the dialect's own form (never a hex literal).
pub fn dialect_literal(d: DialectName, s: &[u8]) -> (r: Option<AccountAddress>)
    ensures
        literal_address(d, s@) is Some <==> r is Some,
        r matches Some(a) ==> literal_address(d, s@) == Some(a@),
{
    match d {
        DialectName::Libra => None,
        DialectName::DFinance => wallet_to_address(s),
        DialectName::Pontem => ss58_to_address(s),
    }
}

/// The Diem dialect: hex literals only.
#[derive(Debug, Default, Clone, Copy)]
pub struct Diem;

/// The dfinance dialect: `wallet1...` bech32 literals and hex literals.
#[derive(Debug, Default, Clone, Copy)]
pub struct DFinance;

/// The Pontem dialect: ss58 literals and hex literals.
#[derive(Debug, Default, Clone, Copy)]
pub struct Pontem;

/// A dialect's operations, one variant per supported dialect. A dialect carries
/// no gas-cost table here: the tables are built by the VM's own gas-schedule
/// crates, which execution brings along.
#[derive(Debug, Clone, Copy)]
pub enum Dialect {
    Diem(Diem),
    DFinance(DFinance),
    Pontem(Pontem),
}

impl Dialect {
    pub open spec fn kind(&self) -> DialectName {
        match self {
            Dialect::Diem(_) => DialectName::Libra,
            Dialect::DFinance(_) => DialectName::DFinance,
            Dialect::Pontem(_) => DialectName::Pontem,
        }
    }

    /// The dialect's name, which `DialectName::from_str` reads back as this dialect.
    pub fn name(&self) -> (r: &'static str)
        ensures
            r.spec_bytes() == name_bytes(self.kind()),
    {
        broadcast use vstd::string::is_ascii_spec_bytes;

        match self {
            Dialect::Diem(_) => {
                proof {
                    reveal_strlit("libra");
                }
                let r = "libra";
                assert(vstd::string::is_ascii(r));
                assert(r.spec_bytes() =~= libra_name());
                r
            },
            Dialect::DFinance(_) => {
                proof {
                    reveal_strlit("dfinance");
                }
                let r = "dfinance";
                assert(vstd::string::is_ascii(r));
                assert(r.spec_bytes() =~= dfinance_name());
                r
            },
            Dialect::Pontem(_) => {
                proof {
                    reveal_strlit("pontem");
                }
                let r = "pontem";
                assert(vstd::string::is_ascii(r));
                assert(r.spec_bytes() =~= pontem_name());
                r
            },
        }
    }

    pub fn dialect_name(&self) -> (r: DialectName)
        ensures
            r == self.kind(),
    {
        match self {
            Dialect::Diem(_) => DialectName::Libra,
            Dialect::DFinance(_) => DialectName::DFinance,
            Dialect::Pontem(_) => DialectName::Pontem,
        }
    }

    /// Resolves an address literal of this dialect.
    pub fn parse_address(&self, addr: &str) -> (r: Result<AccountAddress, AddressError>)
        ensures
            match resolve(self.kind(), addr.spec_bytes()) {
                Some(a) => r matches Ok(x) && x@ == a,
                None => r matches Err(e) && e.literal@ == addr.spec_bytes() && e.dialect
                    == self.kind(),
            },
    {
        resolve_address(self.dialect_name(), addr.as_bytes())
    }

    /// Replaces this dialect's literals in a source text with canonical hex literals.
    pub fn replace_addresses(&self, source_text: &str) -> (r: Rewrite)
        ensures
            r.text@ == rewritten_from(self.kind(), source_text.spec_bytes(), 0),
            r.map.records@ == records_from(self.kind(), source_text.spec_bytes(), 0, 0),
            r.map.wf(),
    {
        rewrite(self.dialect_name(), source_text.as_bytes())
    }
}

impl Pontem {
    pub fn name(&self) -> (r: &'static str)
        ensures
            r@ == "pontem"@,
    {
        "pontem"
    }

    /// Resolves an ss58 literal, or else a `0x` hex literal.
    pub fn parse_address(&self, addr: &str) -> (r: Result<AccountAddress, AddressError>)
        ensures
            match resolve(DialectName::Pontem, addr.spec_bytes()) {
                Some(a) => r matches Ok(x) && x@ == a,
                None => r matches Err(e) && e.literal@ == addr.spec_bytes() && e.dialect
                    == DialectName::Pontem,
            },
    {
        resolve_address(DialectName::Pontem, addr.as_bytes())
    }

    /// Replaces the ss58 literals of a source text with canonical hex literals.
    pub fn replace_addresses(&self, source_text: &str) -> (r: Rewrite)
        ensures
            r.text@ == rewritten_from(DialectName::Pontem, source_text.spec_bytes(), 0),
            r.map.records@ == records_from(DialectName::Pontem, source_text.spec_bytes(), 0, 0),
            r.map.wf(),
    {
        rewrite(DialectName::Pontem, source_text.as_bytes())
    }
}

/// A binary that cannot be brought to the disassembler's basis.
#[derive(Debug, PartialEq, Eq)]
pub struct AdaptError {
    pub fork: Vec<u8>,
}

/// The Pontem dialect with the bytecode basis hooks of its VM.
#[derive(Debug, Default, Clone, Copy)]
pub struct PontemDialect;

impl PontemDialect {
    pub fn name(&self) -> (r: &'static str)
        ensures
            r@ == "pontem"@,
    {
        "pontem"
    }

    /// Pontem binaries already are in the target encoding.
    pub fn adapt_to_target(&self, bytes: &mut Vec<u8>) -> (r: Result<(), AdaptError>)
        ensures
            r is Ok,
            final(bytes)@ == old(bytes)@,
    {
        Ok(())
    }

    /// Pontem binaries already are in the basis encoding.
    pub fn adapt_to_basis(&self, bytes: &mut Vec<u8>) -> (r: Result<(), AdaptError>)
        ensures
            r is Ok,
            final(bytes)@ == old(bytes)@,
    {
        Ok(())
    }

    /// Resolves an ss58 account literal.
    pub fn normalize_account_address(&self, addr: &str) -> (r: Result<AccountAddress, AddressError>)
        ensures
            match ss58_address(addr.spec_bytes()) {
                Some(a) => r matches Ok(x) && x@ == a,
                None => r matches Err(e) && e.literal@ == addr.spec_bytes() && e.dialect
                    == DialectName::Pontem,
            },
    {
        match ss58_to_address(addr.as_bytes()) {
            Some(a) => Ok(a),
            None => Err(
                AddressError {
                    literal: crate::address::copy_bytes(addr.as_bytes()),
                    dialect: DialectName::Pontem,
                },
            ),
        }
    }

    /// Replaces the ss58 literals of a source text with canonical hex literals.
    pub fn replace_addresses(&self, source_text: &str) -> (r: Rewrite)
        ensures
            r.text@ == rewritten_from(DialectName::Pontem, source_text.spec_bytes(), 0),
            r.map.records@ == records_from(DialectName::Pontem, source_text.spec_bytes(), 0, 0),
            r.map.wf(),
    {
        rewrite(DialectName::Pontem, source_text.as_bytes())
    }
}

/// Every dialect reads the rendered hex form of an address back as that address.
pub proof fn lemma_resolve_render(d: DialectName, a: Seq<u8>)
    requires
        a.len() == ADDRESS_LENGTH,
    ensures
        resolve(d, render_hex(a)) == Some(a),
{
    lemma_hex_round_trip(a);
    lemma_hex_literal_not_dialect_form(d, a);
}

/// A rendered hex literal is never read as a dialect's own literal form.
pub proof fn lemma_hex_literal_not_dialect_form(d: DialectName, a: Seq<u8>)
    ensures
        literal_address(d, render_hex(a)) is None,
{
    let r = render_hex(a);
    assert(r[0] == 48u8);
    match d {
        DialectName::Libra => {},
        DialectName::DFinance => {
            if r.len() >= 7 {
                assert(r.subrange(0, 6)[0] != 119u8);
            }
        },
        DialectName::Pontem => {
            assert(!crate::ss58::is_base58_char(r[0]));
        },
    }
}


} // verus!
