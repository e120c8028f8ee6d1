use vstd::prelude::*;

verus! {

/// Width in bytes of every canonical account address.
pub const ADDRESS_LENGTH: usize = 32;

/// Number of hex digits in a full-width address literal.
pub const HEX_WIDTH: usize = 64;

pub open spec fn is_hex_digit(b: u8) -> bool {
    (48 <= b <= 57) || (97 <= b <= 102) || (65 <= b <= 70)
}

pub open spec fn hex_value(b: u8) -> int {
    if 48 <= b <= 57 {
        b - 48
    } else if 97 <= b <= 102 {
        b - 87
    } else if 65 <= b <= 70 {
        b - 55
    } else {
        0
    }
}

/// Lowercase hex digit for a nibble.
pub open spec fn hex_char(n: u8) -> u8 {
    if n < 10 {
        (n + 48) as u8
    } else {
        (n + 87) as u8
    }
}

/// The digits of a literal, zero-extended on the left to the full width.
pub open spec fn padded_digits(d: Seq<u8>) -> Seq<u8> {
    Seq::new((HEX_WIDTH - d.len()) as nat, |i: int| 48u8) + d
}

/// Bytes whose big-endian hex spelling is `p` (two digits per byte).
pub open spec fn bytes_of_digits(p: Seq<u8>) -> Seq<u8> {
    Seq::new(
        (p.len() / 2) as nat,
        |k: int| (16 * hex_value(p[2 * k]) + hex_value(p[2 * k + 1])) as u8,
    )
}

/// `0x` followed by one to `HEX_WIDTH` hex digits.
pub open spec fn is_hex_literal(s: Seq<u8>) -> bool {
    &&& s.len() >= 3
    &&& s.len() <= HEX_WIDTH + 2
    &&& s[0] == 48u8
    &&& s[1] == 120u8
    &&& forall|i: int| 2 <= i < s.len() ==> is_hex_digit(#[trigger] s[i])
}

/// The canonical address that a hex literal denotes.
pub open spec fn hex_literal_address(s: Seq<u8>) -> Seq<u8> {
    bytes_of_digits(padded_digits(s.subrange(2, s.len() as int)))
}

/// `0x` followed by two lowercase hex digits per byte.
pub open spec fn render_hex(a: Seq<u8>) -> Seq<u8> {
    seq![48u8, 120u8] + Seq::new(
        2 * a.len(),
        |j: int|
            if j % 2 == 0 {
                hex_char(a[j / 2] / 16)
            } else {
                hex_char(a[j / 2] % 16)
            },
    )
}

/// A fixed-width binary account address.
#[derive(Debug, PartialEq, Eq)]
pub struct AccountAddress {
    bytes: Vec<u8>,
}

impl View for AccountAddress {
    type V = Seq<u8>;

    closed spec fn view(&self) -> Seq<u8> {
        self.bytes@
    }
}

impl AccountAddress {
    #[verifier::type_invariant]
    spec fn full_width(&self) -> bool {
        self.bytes@.len() == ADDRESS_LENGTH
    }

    /// The address with the given bytes, if there are exactly `ADDRESS_LENGTH` of them.
    pub fn from_bytes(b: &[u8]) -> (r: Option<AccountAddress>)
        ensures
            b@.len() == ADDRESS_LENGTH <==> r is Some,
            r matches Some(a) ==> a@ == b@,
    {
        if b.len() == ADDRESS_LENGTH {
            Some(AccountAddress { bytes: copy_bytes(b) })
        } else {
            None
        }
    }

    pub fn to_bytes(&self) -> (r: Vec<u8>)
        ensures
            r@ == self@,
            r@.len() == ADDRESS_LENGTH,
    {
        proof {
            use_type_invariant(self);
        }
        self.bytes.clone()
    }

    /// Parses `0x` followed by up to `HEX_WIDTH` hex digits, zero-extended on the left.
    pub fn from_hex_literal(s: &[u8]) -> (r: Option<AccountAddress>)
        ensures
            is_hex_literal(s@) <==> r is Some,
            r matches Some(a) ==> a@ == hex_literal_address(s@),
    {
        let n = s.len();
        if n < 3 || n > HEX_WIDTH + 2 || s[0] != 48u8 || s[1] != 120u8 {
            return None;
        }
        let mut i: usize = 2;
        while i < n
            invariant
                2 <= i <= n,
                n == s@.len(),
                forall|j: int| 2 <= j < i ==> is_hex_digit(#[trigger] s@[j]),
            decreases n - i,
        {
            if !hex_digit_check(s[i]) {
                return None;
            }
            i = i + 1;
        }
        assert(is_hex_literal(s@));
        let ghost d = s@.subrange(2, n as int);
        let ghost p = padded_digits(d);
        let pad: usize = HEX_WIDTH + 2 - n;
        assert(p.len() == HEX_WIDTH);
        let mut out: Vec<u8> = Vec::new();
        let mut k: usize = 0;
        while k < ADDRESS_LENGTH
            invariant
                k <= ADDRESS_LENGTH,
                n == s@.len(),
                is_hex_literal(s@),
                pad == HEX_WIDTH + 2 - n,
                d == s@.subrange(2, n as int),
                p == padded_digits(d),
                p.len() == HEX_WIDTH,
                out@.len() == k,
                forall|j: int| 0 <= j < k ==> out@[j] == bytes_of_digits(p)[j],
            decreases ADDRESS_LENGTH - k,
        {
            let hi = digit_at(s, pad, 2 * k);
            let lo = digit_at(s, pad, 2 * k + 1);
            assert(hi == hex_value(p[2 * k]));
            assert(lo == hex_value(p[2 * k + 1]));
            out.push(16 * hi + lo);
            k = k + 1;
        }
        assert(out@ =~= bytes_of_digits(p));
        Some(AccountAddress { bytes: out })
    }

    /// `0x` followed by the address in full-width lowercase hex.
    pub fn to_hex_literal(&self) -> (r: Vec<u8>)
        ensures
            r@ == render_hex(self@),
            r@.len() == HEX_WIDTH + 2,
    {
        proof {
            use_type_invariant(self);
        }
        let mut out: Vec<u8> = vec![48u8, 120u8];
        let mut k: usize = 0;
        while k < self.bytes.len()
            invariant
                k <= self.bytes@.len(),
                out@ =~= render_hex(self@).subrange(0, 2 + 2 * k),
            decreases self.bytes@.len() - k,
        {
            let b = self.bytes[k];
            out.push(nibble_char(b / 16));
            out.push(nibble_char(b % 16));
            k = k + 1;
            assert(out@ =~= render_hex(self@).subrange(0, 2 + 2 * k));
        }
        assert(out@ =~= render_hex(self@));
        out
    }
}

/// A fresh vector holding the bytes of `b`.
pub fn copy_bytes(b: &[u8]) -> (r: Vec<u8>)
    ensures
        r@ == b@,
{
    let mut out: Vec<u8> = Vec::new();
    let mut i: usize = 0;
    while i < b.len()
        invariant
            i <= b@.len(),
            out@ == b@.subrange(0, i as int),
        decreases b@.len() - i,
    {
        out.push(b[i]);
        i = i + 1;
        assert(out@ =~= b@.subrange(0, i as int));
    }
    assert(out@ =~= b@);
    out
}

fn hex_digit_check(b: u8) -> (r: bool)
    ensures
        r == is_hex_digit(b),
{
    (48 <= b && b <= 57) || (97 <= b && b <= 102) || (65 <= b && b <= 70)
}

fn hex_digit_value(b: u8) -> (r: u8)
    requires
        is_hex_digit(b),
    ensures
        r == hex_value(b),
        r < 16,
{
    if b <= 57 {
        b - 48
    } else if b >= 97 {
        b - 87
    } else {
        b - 55
    }
}

/// Value of the `j`-th digit of the zero-extended literal `s`, whose digits start at 2.
fn digit_at(s: &[u8], pad: usize, j: usize) -> (r: u8)
    requires
        is_hex_literal(s@),
        pad == HEX_WIDTH + 2 - s@.len(),
        j < HEX_WIDTH,
    ensures
        r == hex_value(padded_digits(s@.subrange(2, s@.len() as int))[j as int]),
        r < 16,
{
    let ghost d = s@.subrange(2, s@.len() as int);
    if j < pad {
        assert(padded_digits(d)[j as int] == 48u8);
        0
    } else {
        assert(padded_digits(d)[j as int] == s@[j - pad + 2]);
        hex_digit_value(s[j - pad + 2])
    }
}

fn nibble_char(n: u8) -> (r: u8)
    requires
        n < 16,
    ensures
        r == hex_char(n),
{
    if n < 10 {
        n + 48
    } else {
        n + 87
    }
}

pub proof fn lemma_hex_char_value(n: u8)
    requires
        n < 16,
    ensures
        is_hex_digit(hex_char(n)),
        hex_value(hex_char(n)) == n,
{
}

/// Resolving the rendered form of an address gives the address back.
pub proof fn lemma_hex_round_trip(a: Seq<u8>)
    requires
        a.len() == ADDRESS_LENGTH,
    ensures
        is_hex_literal(render_hex(a)),
        hex_literal_address(render_hex(a)) == a,
{
    let r = render_hex(a);
    assert forall|i: int| 2 <= i < r.len() implies is_hex_digit(#[trigger] r[i]) by {
        let j = i - 2;
        if j % 2 == 0 {
            lemma_hex_char_value(a[j / 2] / 16);
        } else {
            lemma_hex_char_value(a[j / 2] % 16);
        }
    }
    let d = r.subrange(2, r.len() as int);
    assert(padded_digits(d) =~= d);
    let out = bytes_of_digits(d);
    assert forall|k: int| 0 <= k < a.len() implies out[k] == a[k] by {
        let b = a[k];
        lemma_hex_char_value(b / 16);
        lemma_hex_char_value(b % 16);
        assert(d[2 * k] == hex_char(b / 16));
        assert(d[2 * k + 1] == hex_char(b % 16));
    }
    assert(out =~= a);
}

} // verus!
