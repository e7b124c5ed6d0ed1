//! IP addresses of either family.
use vstd::prelude::*;

use crate::ipv4;
use crate::ipv4::{AddrParseError, Ipv4Addr};
use crate::ipv6;
use crate::ipv6::Ipv6Addr;
use crate::text;

verus! {

/// An IP address of either family.
#[derive(Debug, Clone, Copy, PartialEq, Eq, Structural)]
pub enum IpAddr {
    V4(Ipv4Addr),
    V6(Ipv6Addr),
}

/// The text of an address.
pub open spec fn ip_text(a: IpAddr) -> Seq<char> {
    match a {
        IpAddr::V4(v4) => ipv4::ipv4_text(v4),
        IpAddr::V6(v6) => ipv6::ipv6_text(v6),
    }
}

/// The address that `s` denotes.
pub open spec fn ip_value(s: Seq<char>) -> Option<IpAddr> {
    match ipv4::ipv4_value(s) {
        Some(v4) => Some(IpAddr::V4(v4)),
        None => match ipv6::ipv6_value(s) {
            Some(v6) => Some(IpAddr::V6(v6)),
            None => None,
        },
    }
}

/// Whether `c` can stand in the text of an address: a digit, a letter from `a` to `f`, a point or
/// a colon.
pub open spec fn is_address_char(c: char) -> bool {
    ||| '0' <= c && c <= '9'
    ||| 'a' <= c && c <= 'f'
    ||| c == '.'
    ||| c == ':'
}

/// The text of an IPv6 address holds a colon, and each of its characters can stand in an address.
pub proof fn lemma_ipv6_text_chars(a: Ipv6Addr)
    ensures
        ipv6::ipv6_text(a).contains(':'),
        forall|i: int|
            0 <= i < ipv6::ipv6_text(a).len() ==> is_address_char(#[trigger] ipv6::ipv6_text(a)[i]),
{
    let s = ipv6::ipv6_text(a);
    if ipv6::is_ipv4_mapped(a) {
        ipv4::lemma_ipv4_text_chars(ipv6::low_ipv4(a));
        assert(s[0] == ':');
        let t = ipv4::ipv4_text(ipv6::low_ipv4(a));
        assert forall|i: int| 0 <= i < s.len() implies is_address_char(#[trigger] s[i]) by {
            if i >= 7 {
                assert(s[i] == t[i - 7]);
            }
        }
    } else {
        let groups = ipv6::groups_of(a);
        ipv6::lemma_made_of_groups(a, groups);
        let (start, len) = ipv6::lemma_longest_zero_run_exists(groups, 8);
        assert(groups.take(8) =~= groups);
        ipv6::lemma_longest_zero_run(groups, start, len);
        if len > 1 {
            let h = ipv6::groups_text(groups.take(start));
            let t = ipv6::groups_text(groups.skip(start + len));
            lemma_groups_text_chars(groups.take(start));
            lemma_groups_text_chars(groups.skip(start + len));
            assert(s[h.len() as int] == ':');
            assert forall|i: int| 0 <= i < s.len() implies is_address_char(#[trigger] s[i]) by {
                if i < h.len() {
                    assert(s[i] == h[i]);
                } else if i >= h.len() + 2 {
                    assert(s[i] == t[i - h.len() - 2]);
                }
            }
        } else {
            lemma_groups_text_chars(groups);
            let init = groups.drop_last();
            assert(init.push(groups.last()) =~= groups);
            ipv6::lemma_groups_text_push(init, groups.last());
            assert(s[ipv6::groups_text(init).len() as int] == ':');
        }
    }
}

/// Each character of the text of groups can stand in an address.
pub proof fn lemma_groups_text_chars(groups: Seq<u16>)
    ensures
        forall|i: int|
            0 <= i < ipv6::groups_text(groups).len() ==> is_address_char(
                #[trigger] ipv6::groups_text(groups)[i],
            ),
    decreases groups.len(),
{
    let s = ipv6::groups_text(groups);
    if groups.len() == 0 {
        ipv6::lemma_groups_text_value(groups);
    } else {
        let init = groups.drop_last();
        let g = groups.last();
        assert(init.push(g) =~= groups);
        lemma_groups_text_chars(init);
        ipv6::lemma_groups_text_push(init, g);
        let front = ipv6::groups_text(init);
        let last = crate::numeral::text_of(g as nat, 16);
        assert forall|i: int| 0 <= i < last.len() implies is_address_char(#[trigger] last[i]) by {
            crate::numeral::lemma_text_chars(g as nat, 16, i);
        }
        assert forall|i: int| 0 <= i < s.len() implies is_address_char(#[trigger] s[i]) by {
            if init.len() > 0 {
                if i < front.len() {
                    assert(s[i] == front[i]);
                } else if i > front.len() {
                    assert(s[i] == last[i - front.len() - 1]);
                }
            } else {
                assert(s[i] == last[i]);
            }
        }
    }
}

/// The text of an address is not empty, and each of its characters can stand in an address.
pub proof fn lemma_ip_text_chars(a: IpAddr)
    ensures
        ip_text(a).len() >= 1,
        forall|i: int| 0 <= i < ip_text(a).len() ==> is_address_char(#[trigger] ip_text(a)[i]),
{
    match a {
        IpAddr::V4(v4) => {
            ipv4::lemma_ipv4_text_chars(v4);
        },
        IpAddr::V6(v6) => {
            lemma_ipv6_text_chars(v6);
        },
    }
}

/// An address reads back from its text.
pub proof fn law_ip_round_trip(a: IpAddr)
    ensures
        ip_value(ip_text(a)) == Some(a),
{
    match a {
        IpAddr::V4(v4) => {
            ipv4::lemma_ipv4_round_trip(v4);
        },
        IpAddr::V6(v6) => {
            ipv6::lemma_ipv6_round_trip(v6);
            let s = ipv6::ipv6_text(v6);
            lemma_ipv6_text_chars(v6);
            ipv4::lemma_ipv4_text_unique(s);
            if let Some(v4) = ipv4::ipv4_value(s) {
                ipv4::lemma_ipv4_text_chars(v4);
                let i = choose|i: int| 0 <= i < s.len() && s[i] == ':';
                assert(s[i] == ipv4::ipv4_text(v4)[i]);
            }
        },
    }
}

/// Two addresses with the same text are the same address.
pub proof fn law_texts_tell_addresses_apart(a: IpAddr, b: IpAddr)
    requires
        ip_text(a) == ip_text(b),
    ensures
        a == b,
{
    law_ip_round_trip(a);
    law_ip_round_trip(b);
}

/// The address that the characters denote.
pub fn parse_ip_chars(s: &Vec<char>) -> (r: Option<IpAddr>)
    ensures
        r == ip_value(s@),
{
    match ipv4::parse_ipv4_chars(s) {
        Some(v4) => Some(IpAddr::V4(v4)),
        None => match ipv6::parse_ipv6_chars(s) {
            Some(v6) => Some(IpAddr::V6(v6)),
            None => None,
        },
    }
}

impl IpAddr {
    /// Appends the text of the address.
    pub fn push_text(&self, out: &mut String)
        ensures
            final(out)@ == old(out)@ + ip_text(*self),
    {
        match self {
            IpAddr::V4(v4) => v4.push_text(out),
            IpAddr::V6(v6) => v6.push_text(out),
        }
    }

    /// The text of the address.
    pub fn to_string(&self) -> (r: String)
        ensures
            r@ == ip_text(*self),
    {
        let mut out = String::new();
        self.push_text(&mut out);
        proof {
            assert(out@ =~= ip_text(*self));
        }
        out
    }
}

impl std::str::FromStr for IpAddr {
    type Err = AddrParseError;

    fn from_str(s: &str) -> (r: Result<Self, Self::Err>)
        ensures
            r is Ok == ip_value(s@) is Some,
            r matches Ok(a) ==> ip_value(s@) == Some(a),
    {
        match parse_ip_chars(&text::chars_of(s)) {
            Some(a) => Ok(a),
            None => Err(AddrParseError {  }),
        }
    }
}

// Laws

/// An IPv4 address is written and read as one, and what does not read as one may read as an IPv6
/// address.
pub proof fn law_ip_addresses(s: Seq<char>, v4: Ipv4Addr, v6: Ipv6Addr)
    ensures
        ip_text(IpAddr::V4(v4)) == ipv4::ipv4_text(v4),
        ip_text(IpAddr::V6(v6)) == ipv6::ipv6_text(v6),
        ip_value(s) == Some(IpAddr::V4(v4)) <==> ipv4::ipv4_value(s) == Some(v4),
        ip_value(s) == Some(IpAddr::V6(v6)) <==> ipv4::ipv4_value(s) is None && ipv6::ipv6_value(s)
            == Some(v6),
{
}

} // verus!
