//! IPv4 addresses and their dotted-quad text.
use vstd::prelude::*;

use crate::numeral;
use crate::text;

verus! {

/// An IPv4 address, as the number its four octets form, the first octet highest.
#[derive(Debug, Clone, Copy, PartialEq, Eq, Structural)]
pub struct Ipv4Addr {
    pub bits: u32,
}

/// A text that denotes no IP address.
#[derive(Debug, Clone, Copy, PartialEq, Eq, Structural)]
pub struct AddrParseError {}

/// The `i`th octet of the address, counted from 0.
pub open spec fn octet(a: Ipv4Addr, i: int) -> nat {
    if i == 0 {
        a.bits as nat / 0x1000000
    } else if i == 1 {
        a.bits as nat / 0x10000 % 0x100
    } else if i == 2 {
        a.bits as nat / 0x100 % 0x100
    } else {
        a.bits as nat % 0x100
    }
}

/// The address of the four octets.
pub open spec fn of_octets(a: nat, b: nat, c: nat, d: nat) -> Ipv4Addr {
    Ipv4Addr { bits: (a * 0x1000000 + b * 0x10000 + c * 0x100 + d) as u32 }
}

/// The decimal texts of the four octets.
pub open spec fn octet_texts(a: Ipv4Addr) -> Seq<Seq<char>> {
    Seq::new(4, |i: int| numeral::decimal(octet(a, i)))
}

/// The text of an address: its octets in decimal with points between them.
pub open spec fn ipv4_text(a: Ipv4Addr) -> Seq<char> {
    text::join(octet_texts(a), '.')
}

/// The octet that `p` denotes: one to three decimal digits, no needless leading zero, at most 255.
pub open spec fn octet_value(p: Seq<char>) -> Option<nat> {
    if 1 <= p.len() <= 3 && numeral::all_digits(p, 10) && (p.len() == 1 || p[0] != '0')
        && numeral::value_of(p, 10) <= 255 {
        Some(numeral::value_of(p, 10))
    } else {
        None
    }
}

/// The address that `s` denotes: four octets with points between them.
pub open spec fn ipv4_value(s: Seq<char>) -> Option<Ipv4Addr> {
    let parts = text::split(s, '.');
    if parts.len() == 4 {
        match (
            octet_value(parts[0]),
            octet_value(parts[1]),
            octet_value(parts[2]),
            octet_value(parts[3]),
        ) {
            (Some(a), Some(b), Some(c), Some(d)) => Some(of_octets(a, b, c, d)),
            _ => None,
        }
    } else {
        None
    }
}

/// An address is made of its octets.
pub proof fn lemma_made_of_octets(addr: Ipv4Addr)
    ensures
        of_octets(octet(addr, 0), octet(addr, 1), octet(addr, 2), octet(addr, 3)) == addr,
        forall|i: int| octet(addr, i) <= 255,
{
    let bits = addr.bits;
    assert(bits == (bits / 0x1000000) * 0x1000000 + (bits / 0x10000 % 0x100) * 0x10000 + (bits
        / 0x100 % 0x100) * 0x100 + bits % 0x100) by (bit_vector);
}

/// Octets are those of the address they make.
pub proof fn lemma_octets_of(a: nat, b: nat, c: nat, d: nat)
    requires
        a <= 255,
        b <= 255,
        c <= 255,
        d <= 255,
    ensures
        octet(of_octets(a, b, c, d), 0) == a,
        octet(of_octets(a, b, c, d), 1) == b,
        octet(of_octets(a, b, c, d), 2) == c,
        octet(of_octets(a, b, c, d), 3) == d,
{
    let n = a * 0x1000000 + b * 0x10000 + c * 0x100 + d;
    assert(n as u32 == n);
    assert(n / 0x100 == a * 0x10000 + b * 0x100 + c && n % 0x100 == d);
    assert(n / 0x10000 == a * 0x100 + b);
    assert(n / 0x1000000 == a);
    assert((a * 0x10000 + b * 0x100 + c) % 0x100 == c);
    assert((a * 0x100 + b) % 0x100 == b);
}

/// A decimal octet reads back from its text, and holds no separator.
pub proof fn lemma_octet_text(n: nat)
    requires
        n <= 255,
    ensures
        octet_value(numeral::decimal(n)) == Some(n),
        !numeral::decimal(n).contains('.'),
        !numeral::decimal(n).contains(':'),
        !numeral::decimal(n).contains('/'),
{
    numeral::lemma_text_round_trip(n, 10);
    numeral::lemma_text_first(n, 10);
    numeral::lemma_decimal_length(n);
    let t = numeral::decimal(n);
    assert forall|i: int| 0 <= i < t.len() implies '0' <= #[trigger] t[i] && t[i] <= '9' by {
        numeral::lemma_text_chars(n, 10, i);
    }
}

/// An address reads back from its text.
pub proof fn lemma_ipv4_round_trip(a: Ipv4Addr)
    ensures
        ipv4_value(ipv4_text(a)) == Some(a),
{
    lemma_made_of_octets(a);
    let parts = octet_texts(a);
    assert forall|i: int| 0 <= i < parts.len() implies !(#[trigger] parts[i]).contains('.') by {
        lemma_octet_text(octet(a, i));
    }
    lemma_octet_text(octet(a, 0));
    lemma_octet_text(octet(a, 1));
    lemma_octet_text(octet(a, 2));
    lemma_octet_text(octet(a, 3));
    text::lemma_split_join(parts, '.');
}

/// A text that denotes an address is that address's text: no address has two texts.
pub proof fn lemma_ipv4_text_unique(s: Seq<char>)
    ensures
        ipv4_value(s) matches Some(a) ==> s == ipv4_text(a),
{
    if let Some(addr) = ipv4_value(s) {
        let parts = text::split(s, '.');
        let a = octet_value(parts[0]).unwrap();
        let b = octet_value(parts[1]).unwrap();
        let c = octet_value(parts[2]).unwrap();
        let d = octet_value(parts[3]).unwrap();
        lemma_octets_of(a, b, c, d);
        numeral::lemma_canonical_decimal(parts[0]);
        numeral::lemma_canonical_decimal(parts[1]);
        numeral::lemma_canonical_decimal(parts[2]);
        numeral::lemma_canonical_decimal(parts[3]);
        assert(octet_texts(addr) =~= parts);
        text::lemma_join_split(s, '.');
    }
}

/// Every character of an address's text is a digit or a point.
pub proof fn lemma_ipv4_text_chars(a: Ipv4Addr)
    ensures
        ipv4_text(a).len() >= 1,
        forall|i: int|
            0 <= i < ipv4_text(a).len() ==> (#[trigger] ipv4_text(a)[i] == '.' || '0'
                <= ipv4_text(a)[i] && ipv4_text(a)[i] <= '9'),
{
    lemma_made_of_octets(a);
    let parts = octet_texts(a);
    assert forall|k: int, i: int| 0 <= k < 4 && 0 <= i < parts[k].len() implies '0'
        <= #[trigger] parts[k][i] && parts[k][i] <= '9' by {
        numeral::lemma_text_chars(octet(a, k), 10, i);
    }
    numeral::lemma_text_first(octet(a, 0), 10);
    lemma_ipv4_text_unfold(a);
    let (p0, p1, p2, p3) = (parts[0], parts[1], parts[2], parts[3]);
    assert forall|i: int| 0 <= i < ipv4_text(a).len() implies (#[trigger] ipv4_text(a)[i] == '.'
        || '0' <= ipv4_text(a)[i] && ipv4_text(a)[i] <= '9') by {
        let j1 = i - p0.len() - 1;
        let j2 = j1 - p1.len() - 1;
        let j3 = j2 - p2.len() - 1;
        if i < p0.len() {
            assert(ipv4_text(a)[i] == parts[0][i]);
        } else if 0 <= j1 < p1.len() {
            assert(ipv4_text(a)[i] == parts[1][j1]);
        } else if 0 <= j2 < p2.len() {
            assert(ipv4_text(a)[i] == parts[2][j2]);
        } else if 0 <= j3 {
            assert(ipv4_text(a)[i] == parts[3][j3]);
        }
    }
}

/// The text of an address, octet by octet.
pub proof fn lemma_ipv4_text_unfold(a: Ipv4Addr)
    ensures
        ipv4_text(a) == numeral::decimal(octet(a, 0)).push('.') + numeral::decimal(
            octet(a, 1),
        ).push('.') + numeral::decimal(octet(a, 2)).push('.') + numeral::decimal(octet(a, 3)),
{
    let parts = octet_texts(a);
    reveal_with_fuel(text::join, 4);
    assert(parts.drop_last().drop_last().drop_last() =~= seq![parts[0]]);
    assert(ipv4_text(a) =~= numeral::decimal(octet(a, 0)).push('.') + numeral::decimal(
        octet(a, 1),
    ).push('.') + numeral::decimal(octet(a, 2)).push('.') + numeral::decimal(octet(a, 3)));
}

/// The octet that the characters denote.
fn parse_octet(p: &Vec<char>) -> (r: Option<u8>)
    ensures
        r is Some == octet_value(p@) is Some,
        r matches Some(v) ==> octet_value(p@) == Some(v as nat),
{
    if p.len() < 1 || p.len() > 3 {
        return None;
    }
    if p.len() > 1 && p[0] == '0' {
        return None;
    }
    match numeral::short_value(p, 10) {
        Some(v) => {
            if v <= 255 {
                Some(v as u8)
            } else {
                None
            }
        },
        None => None,
    }
}

/// The address that the characters denote.
pub fn parse_ipv4_chars(s: &Vec<char>) -> (r: Option<Ipv4Addr>)
    ensures
        r == ipv4_value(s@),
{
    let parts = text::split_chars(s, '.');
    proof {
        assert(text::pieces(parts@).len() == parts@.len());
        assert forall|i: int| 0 <= i < parts@.len() implies text::split(s@, '.')[i]
            == #[trigger] parts@[i]@ by {
            assert(text::pieces(parts@)[i] == parts@[i]@);
        }
    }
    if parts.len() != 4 {
        return None;
    }
    match (
        parse_octet(&parts[0]),
        parse_octet(&parts[1]),
        parse_octet(&parts[2]),
        parse_octet(&parts[3]),
    ) {
        (Some(a), Some(b), Some(c), Some(d)) => Some(
            Ipv4Addr {
                bits: a as u32 * 0x1000000 + b as u32 * 0x10000 + c as u32 * 0x100 + d as u32,
            },
        ),
        _ => None,
    }
}

impl Ipv4Addr {
    /// Appends the text of the address.
    pub fn push_text(&self, out: &mut String)
        ensures
            final(out)@ == old(out)@ + ipv4_text(*self),
    {
        let ghost before = out@;
        numeral::push_number(out, (self.bits / 0x1000000) as u128, 10);
        out.push('.');
        numeral::push_number(out, (self.bits / 0x10000 % 0x100) as u128, 10);
        out.push('.');
        numeral::push_number(out, (self.bits / 0x100 % 0x100) as u128, 10);
        out.push('.');
        numeral::push_number(out, (self.bits % 0x100) as u128, 10);
        proof {
            lemma_ipv4_text_unfold(*self);
            assert(out@ =~= before + ipv4_text(*self));
        }
    }

    /// The text of the address.
    pub fn to_string(&self) -> (r: String)
        ensures
            r@ == ipv4_text(*self),
    {
        let mut out = String::new();
        self.push_text(&mut out);
        proof {
            assert(out@ =~= ipv4_text(*self));
        }
        out
    }
}

impl std::str::FromStr for Ipv4Addr {
    type Err = AddrParseError;

    fn from_str(s: &str) -> (r: Result<Self, Self::Err>)
        ensures
            r is Ok == ipv4_value(s@) is Some,
            r matches Ok(a) ==> ipv4_value(s@) == Some(a),
    {
        match parse_ipv4_chars(&text::chars_of(s)) {
            Some(a) => Ok(a),
            None => Err(AddrParseError {  }),
        }
    }
}

// Laws

/// An address is written as its four bytes in decimal, the highest first, with points between them.
pub proof fn law_ipv4_text(a: Ipv4Addr)
    ensures
        ({
            let n = a.bits as nat;
            ipv4_text(a) == numeral::decimal(n / 0x1000000) + seq!['.'] + numeral::decimal(
                n / 0x10000 % 0x100,
            ) + seq!['.'] + numeral::decimal(n / 0x100 % 0x100) + seq!['.'] + numeral::decimal(
                n % 0x100,
            )
        }),
{
    let n = a.bits as nat;
    lemma_ipv4_text_unfold(a);
    assert(ipv4_text(a) =~= numeral::decimal(n / 0x1000000) + seq!['.'] + numeral::decimal(
        n / 0x10000 % 0x100,
    ) + seq!['.'] + numeral::decimal(n / 0x100 % 0x100) + seq!['.'] + numeral::decimal(n % 0x100));
}

/// A text denotes an address exactly where it is the text of that address.
pub proof fn law_ipv4_reading(s: Seq<char>, a: Ipv4Addr)
    ensures
        ipv4_value(s) == Some(a) <==> s == ipv4_text(a),
{
    lemma_ipv4_round_trip(a);
    lemma_ipv4_text_unique(s);
}

} // verus!
