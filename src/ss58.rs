use vstd::prelude::*;

use crate::address::AccountAddress;

verus! {

/// What base58 (Bitcoin alphabet) decoding makes of a byte string.
pub uninterp spec fn base58_decoded(s: Seq<u8>) -> Option<Seq<u8>>;

/// The 64-byte BLAKE2b digest of a byte string.
pub uninterp spec fn blake2b512_digest(data: Seq<u8>) -> Seq<u8>;

/// Relies on `bs58::decode(..).into_vec()`: the bytes that a base58 string
/// stands for, or an error (a byte outside the alphabet). The output buffer is
/// sized to the input's length and running past it is an error, so the bytes
/// are never more than the characters.
#[verifier::external_body]
fn base58_decode(s: &[u8]) -> (r: Option<Vec<u8>>)
    ensures
        match r {
            Some(v) => base58_decoded(s@) == Some(v@),
            None => base58_decoded(s@) is None,
        },
        r matches Some(v) ==> v@.len() <= s@.len(),
{
    bs58::decode(s).into_vec().ok()
}

/// Relies on `blake2::Blake2b512`'s `Digest::digest`: the 64-byte digest of `data`.
#[verifier::external_body]
fn blake2b_512(data: &[u8]) -> (r: Vec<u8>)
    ensures
        r@ == blake2b512_digest(data@),
        r@.len() == 64,
{
    <blake2::Blake2b512 as blake2::Digest>::digest(data).to_vec()
}

/// Length of a decoded ss58 address: a prefix byte, the key, two checksum bytes.
pub const SS58_DECODED_LENGTH: usize = 35;

/// The context string that the ss58 checksum hashes ahead of the payload.
pub open spec fn ss58_context() -> Seq<u8> {
    seq![83u8, 83u8, 53u8, 56u8, 80u8, 82u8, 69u8]
}

/// A byte of the base58 alphabet: digits 1-9 and letters but `I`, `O`, `l`.
pub open spec fn is_base58_char(b: u8) -> bool {
    (49 <= b <= 57) || (65 <= b <= 72) || (74 <= b <= 78) || (80 <= b <= 90) || (97 <= b
        <= 107) || (109 <= b <= 122)
}

/// A decoded ss58 string whose checksum matches its prefix byte and key.
pub open spec fn ss58_checksum_ok(raw: Seq<u8>) -> bool {
    &&& raw.len() == SS58_DECODED_LENGTH
    &&& blake2b512_digest(ss58_context() + raw.subrange(0, 33)).subrange(0, 2) == raw.subrange(
        33,
        35,
    )
}

/// The address that an ss58 literal denotes: its 32-byte key. Base58 never
/// decodes to more bytes than it has characters, so a literal has at least
/// `SS58_DECODED_LENGTH` of them.
pub open spec fn ss58_address(s: Seq<u8>) -> Option<Seq<u8>> {
    if s.len() >= SS58_DECODED_LENGTH && forall|i: int| 0 <= i < s.len() ==> is_base58_char(#[trigger] s[i]) {
        match base58_decoded(s) {
            Some(raw) => if ss58_checksum_ok(raw) {
                Some(raw.subrange(1, 33))
            } else {
                None
            },
            None => None,
        }
    } else {
        None
    }
}

pub fn base58_char_check(b: u8) -> (r: bool)
    ensures
        r == is_base58_char(b),
{
    (49 <= b && b <= 57) || (65 <= b && b <= 72) || (74 <= b && b <= 78) || (80 <= b && b <= 90)
        || (97 <= b && b <= 107) || (109 <= b && b <= 122)
}

/// Decodes an ss58 literal and checks its checksum.
pub fn ss58_to_address(s: &[u8]) -> (r: Option<AccountAddress>)
    ensures
        ss58_address(s@) is Some <==> r is Some,
        r matches Some(a) ==> ss58_address(s@) == Some(a@),
{
    if s.len() < SS58_DECODED_LENGTH {
        return None;
    }
    let mut i: usize = 0;
    while i < s.len()
        invariant
            i <= s@.len(),
            forall|j: int| 0 <= j < i ==> is_base58_char(#[trigger] s@[j]),
        decreases s@.len() - i,
    {
        if !base58_char_check(s[i]) {
            return None;
        }
        i = i + 1;
    }
    let raw = match base58_decode(s) {
        Some(v) => v,
        None => {
            return None;
        },
    };
    if raw.len() != SS58_DECODED_LENGTH {
        return None;
    }
    let mut hashed: Vec<u8> = vec![83u8, 83u8, 53u8, 56u8, 80u8, 82u8, 69u8];
    let mut k: usize = 0;
    while k < 33
        invariant
            k <= 33,
            raw@.len() == SS58_DECODED_LENGTH,
            hashed@ =~= ss58_context() + raw@.subrange(0, k as int),
        decreases 33 - k,
    {
        hashed.push(raw[k]);
        k = k + 1;
        assert(hashed@ =~= ss58_context() + raw@.subrange(0, k as int));
    }
    let digest = blake2b_512(hashed.as_slice());
    if digest[0] != raw[33] || digest[1] != raw[34] {
        assert(digest@.subrange(0, 2) != raw@.subrange(33, 35)) by {
            if digest@[0] != raw@[33] {
                assert(digest@.subrange(0, 2)[0] != raw@.subrange(33, 35)[0]);
            } else {
                assert(digest@.subrange(0, 2)[1] != raw@.subrange(33, 35)[1]);
            }
        }
        return None;
    }
    assert(digest@.subrange(0, 2) =~= raw@.subrange(33, 35));
    let mut key: Vec<u8> = Vec::new();
    let mut j: usize = 1;
    while j < 33
        invariant
            1 <= j <= 33,
            raw@.len() == SS58_DECODED_LENGTH,
            key@ =~= raw@.subrange(1, j as int),
        decreases 33 - j,
    {
        key.push(raw[j]);
        j = j + 1;
        assert(key@ =~= raw@.subrange(1, j as int));
    }
    AccountAddress::from_bytes(key.as_slice())
}

} // verus!
