use vstd::prelude::*;

use crate::address::{AccountAddress, ADDRESS_LENGTH};

verus! {

/// What bech32 decoding (bech32 checksum) makes of a string: its human-readable
/// part and its data bytes.
pub uninterp spec fn bech32_decoded(s: Seq<u8>) -> Option<(Seq<u8>, Seq<u8>)>;

/// Relies on `bech32::primitives::decode::CheckedHrpstring::new::<Bech32>`: the
/// human-readable part and the data bytes of a bech32 string whose (bech32, not
/// bech32m) checksum is valid, or an error. Bytes that are not UTF-8 text are no
/// bech32 string either.
#[verifier::external_body]
fn bech32_decode(s: &[u8]) -> (r: Option<(Vec<u8>, Vec<u8>)>)
    ensures
        match r {
            Some(p) => bech32_decoded(s@) == Some((p.0@, p.1@)),
            None => bech32_decoded(s@) is None,
        },
{
    let text = std::str::from_utf8(s).ok()?;
    let checked =
        bech32::primitives::decode::CheckedHrpstring::new::<bech32::Bech32>(text).ok()?;
    Some((checked.hrp().as_bytes().to_vec(), checked.byte_iter().collect()))
}

/// Number of data bytes in a wallet address.
pub const WALLET_DATA_LENGTH: usize = 20;

/// `wallet`, the human-readable part of a wallet address.
pub open spec fn wallet_hrp() -> Seq<u8> {
    seq![119u8, 97u8, 108u8, 108u8, 101u8, 116u8]
}

/// The literal starts with `wallet1`.
pub open spec fn has_wallet_prefix(s: Seq<u8>) -> bool {
    s.len() >= 7 && s.subrange(0, 6) == wallet_hrp() && s[6] == 49u8
}

/// The address that a wallet literal denotes: its 20 data bytes, zero-filled on the right.
pub open spec fn wallet_address(s: Seq<u8>) -> Option<Seq<u8>> {
    if has_wallet_prefix(s) {
        match bech32_decoded(s) {
            Some(p) => if p.0 == wallet_hrp() && p.1.len() == WALLET_DATA_LENGTH {
                Some(p.1 + Seq::new((ADDRESS_LENGTH - WALLET_DATA_LENGTH) as nat, |i: int| 0u8))
            } else {
                None
            },
            None => None,
        }
    } else {
        None
    }
}

fn wallet_prefix_check(s: &[u8]) -> (r: bool)
    ensures
        r == has_wallet_prefix(s@),
{
    if s.len() < 7 {
        return false;
    }
    let ok = s[0] == 119u8 && s[1] == 97u8 && s[2] == 108u8 && s[3] == 108u8 && s[4] == 101u8
        && s[5] == 116u8 && s[6] == 49u8;
    if ok {
        assert(s@.subrange(0, 6) =~= wallet_hrp());
    } else if s[6] == 49u8 {
        assert(s@.subrange(0, 6) != wallet_hrp()) by {
            let t = s@.subrange(0, 6);
            if t == wallet_hrp() {
                assert(t[0] == 119u8 && t[1] == 97u8 && t[2] == 108u8);
                assert(t[3] == 108u8 && t[4] == 101u8 && t[5] == 116u8);
            }
        }
    }
    ok
}

/// Decodes a `wallet1...` bech32 literal into an address.
pub fn wallet_to_address(s: &[u8]) -> (r: Option<AccountAddress>)
    ensures
        wallet_address(s@) is Some <==> r is Some,
        r matches Some(a) ==> wallet_address(s@) == Some(a@),
{
    if !wallet_prefix_check(s) {
        return None;
    }
    let (hrp, data) = match bech32_decode(s) {
        Some(p) => p,
        None => {
            return None;
        },
    };
    if hrp.len() != 6 || hrp[0] != 119u8 || hrp[1] != 97u8 || hrp[2] != 108u8 || hrp[3] != 108u8
        || hrp[4] != 101u8 || hrp[5] != 116u8 {
        assert(hrp@ != wallet_hrp()) by {
            if hrp@ == wallet_hrp() {
                assert(hrp@[0] == 119u8 && hrp@[1] == 97u8 && hrp@[2] == 108u8);
                assert(hrp@[3] == 108u8 && hrp@[4] == 101u8 && hrp@[5] == 116u8);
            }
        }
        return None;
    }
    assert(hrp@ =~= wallet_hrp());
    if data.len() != WALLET_DATA_LENGTH {
        return None;
    }
    let mut bytes: Vec<u8> = data;
    let ghost head = bytes@;
    while bytes.len() < ADDRESS_LENGTH
        invariant
            WALLET_DATA_LENGTH <= bytes@.len() <= ADDRESS_LENGTH,
            head.len() == WALLET_DATA_LENGTH,
            bytes@ =~= head + Seq::new((bytes@.len() - WALLET_DATA_LENGTH) as nat, |i: int| 0u8),
        decreases ADDRESS_LENGTH - bytes@.len(),
    {
        bytes.push(0u8);
    }
    AccountAddress::from_bytes(bytes.as_slice())
}

} // verus!
