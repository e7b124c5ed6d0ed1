//! IPv6 addresses and their colon-separated text.
use vstd::arithmetic::power::{lemma_pow0, lemma_pow1, lemma_pow_adds, lemma_pow_positive, pow};
use vstd::prelude::*;

use crate::ipv4;
use crate::ipv4::Ipv4Addr;
use crate::numeral;
use crate::text;

verus! {

/// An IPv6 address, as the number its sixteen octets form, the first octet highest.
#[derive(Debug, Clone, Copy, PartialEq, Eq, Structural)]
pub struct Ipv6Addr {
    pub bits: u128,
}

/// The last `k` groups of sixteen bits of `n`, the highest first.
pub open spec fn low_groups(n: nat, k: nat) -> Seq<u16>
    decreases k,
{
    if k == 0 {
        Seq::empty()
    } else {
        low_groups(n / 0x10000, (k - 1) as nat).push((n % 0x10000) as u16)
    }
}

/// The number that groups of sixteen bits form, the first group highest.
pub open spec fn number_of(groups: Seq<u16>) -> nat
    decreases groups.len(),
{
    if groups.len() == 0 {
        0
    } else {
        number_of(groups.drop_last()) * 0x10000 + groups.last() as nat
    }
}

/// The eight groups of an address.
pub open spec fn groups_of(a: Ipv6Addr) -> Seq<u16> {
    low_groups(a.bits as nat, 8)
}

/// The address of eight groups.
pub open spec fn of_groups(groups: Seq<u16>) -> Ipv6Addr {
    Ipv6Addr { bits: number_of(groups) as u128 }
}

/// Whether the `len` groups from `start` on are all zero.
pub open spec fn zero_run(groups: Seq<u16>, start: int, len: int) -> bool {
    &&& 0 <= start
    &&& 0 <= len
    &&& start + len <= groups.len()
    &&& forall|i: int| start <= i < start + len ==> groups[i] == 0
}

/// Whether no run of zero groups is longer than this one, and none as long starts before it.
pub open spec fn is_longest_zero_run(groups: Seq<u16>, start: int, len: int) -> bool {
    &&& zero_run(groups, start, len)
    &&& forall|a: int, l: int| #[trigger] zero_run(groups, a, l) ==> l <= len
    &&& forall|a: int| #[trigger] zero_run(groups, a, len) ==> start <= a
}

/// The start and the length of the first among the longest runs of zero groups.
pub open spec fn longest_zero_run(groups: Seq<u16>) -> (int, int) {
    choose|r: (int, int)| is_longest_zero_run(groups, r.0, r.1)
}

/// The groups in hexadecimal, each in its shortest form.
pub open spec fn group_texts(groups: Seq<u16>) -> Seq<Seq<char>> {
    groups.map_values(|g: u16| numeral::text_of(g as nat, 16))
}

/// The groups in hexadecimal with colons between them.
pub open spec fn groups_text(groups: Seq<u16>) -> Seq<char> {
    text::join(group_texts(groups), ':')
}

/// The four octets at the end of an address.
pub open spec fn low_ipv4(a: Ipv6Addr) -> Ipv4Addr {
    Ipv4Addr { bits: (a.bits as nat % 0x100000000) as u32 }
}

/// Whether the address stands for an IPv4 address (`::ffff:0:0/96`).
pub open spec fn is_ipv4_mapped(a: Ipv6Addr) -> bool {
    a.bits as nat / 0x100000000 == 0xffff
}

/// What the text of an IPv4-mapped address starts with.
pub open spec fn mapped_prefix() -> Seq<char> {
    seq![':', ':', 'f', 'f', 'f', 'f', ':']
}

/// The text of an address: the first longest run of two or more zero groups is written as two
/// colons, and an IPv4-mapped address ends in dotted-quad form.
pub open spec fn ipv6_text(a: Ipv6Addr) -> Seq<char> {
    if is_ipv4_mapped(a) {
        mapped_prefix() + ipv4::ipv4_text(low_ipv4(a))
    } else {
        let groups = groups_of(a);
        let (start, len) = longest_zero_run(groups);
        if len > 1 {
            groups_text(groups.take(start)).push(':').push(':') + groups_text(
                groups.skip(start + len),
            )
        } else {
            groups_text(groups)
        }
    }
}

/// The group that `p` denotes: one to four hexadecimal digits in either case.
pub open spec fn group_value(p: Seq<char>) -> Option<u16> {
    if 1 <= p.len() <= 4 && numeral::all_digits(p, 16) {
        Some(numeral::value_of(p, 16) as u16)
    } else {
        None
    }
}

/// The groups that the parts denote, where each denotes one.
pub open spec fn plain_groups(parts: Seq<Seq<char>>) -> Option<Seq<u16>> {
    if forall|i: int| 0 <= i < parts.len() ==> group_value(#[trigger] parts[i]) is Some {
        Some(parts.map_values(|p: Seq<char>| group_value(p).unwrap()))
    } else {
        None
    }
}

/// The two groups that the octets of an IPv4 address form.
pub open spec fn ipv4_groups(a: Ipv4Addr) -> Seq<u16> {
    seq![(a.bits as nat / 0x10000) as u16, (a.bits as nat % 0x10000) as u16]
}

/// The groups that the parts denote, where the last may be an IPv4 address and count as two.
pub open spec fn mixed_groups(parts: Seq<Seq<char>>) -> Option<Seq<u16>> {
    match plain_groups(parts.drop_last()) {
        None => None,
        Some(init) => match group_value(parts.last()) {
            Some(g) => Some(init.push(g)),
            None => match ipv4::ipv4_value(parts.last()) {
                Some(a) => Some(init + ipv4_groups(a)),
                None => None,
            },
        },
    }
}

/// The groups before a double colon: none for the empty text.
pub open spec fn head_value(s: Seq<char>) -> Option<Seq<u16>> {
    if s.len() == 0 {
        Some(Seq::empty())
    } else {
        plain_groups(text::split(s, ':'))
    }
}

/// The groups at the end of an address: none for the empty text.
pub open spec fn tail_value(s: Seq<char>) -> Option<Seq<u16>> {
    if s.len() == 0 {
        Some(Seq::empty())
    } else {
        mixed_groups(text::split(s, ':'))
    }
}

/// Whether `s` holds two colons in a row at `i`.
pub open spec fn gap_at(s: Seq<char>, i: int) -> bool {
    0 <= i && i + 1 < s.len() && s[i] == ':' && s[i + 1] == ':'
}

/// Whether `s` holds two colons in a row.
pub open spec fn has_gap(s: Seq<char>) -> bool {
    exists|i: int| gap_at(s, i)
}

/// Whether the first two colons in a row stand at `i`.
pub open spec fn is_first_gap(s: Seq<char>, i: int) -> bool {
    gap_at(s, i) && forall|j: int| #[trigger] gap_at(s, j) ==> i <= j
}

/// Where the first two colons in a row stand.
pub open spec fn first_gap(s: Seq<char>) -> int {
    choose|i: int| is_first_gap(s, i)
}

/// `n` zero groups.
pub open spec fn zeros(n: int) -> Seq<u16> {
    Seq::new(n as nat, |i: int| 0u16)
}

/// The address that `s` denotes: eight groups, of which one run of zero groups may be left out at
/// a double colon and the last two may be written as an IPv4 address.
pub open spec fn ipv6_value(s: Seq<char>) -> Option<Ipv6Addr> {
    if has_gap(s) {
        let i = first_gap(s);
        match (head_value(s.take(i)), tail_value(s.skip(i + 2))) {
            (Some(head), Some(tail)) => if head.len() + tail.len() <= 7 {
                Some(of_groups(head + zeros(8 - head.len() - tail.len()) + tail))
            } else {
                None
            },
            _ => None,
        }
    } else {
        match tail_value(s) {
            Some(groups) => if groups.len() == 8 {
                Some(of_groups(groups))
            } else {
                None
            },
            None => None,
        }
    }
}

// Groups and numbers

/// A number of so many groups is below the power of their base.
pub proof fn lemma_number_bound(groups: Seq<u16>)
    ensures
        number_of(groups) < pow(0x10000, groups.len()),
    decreases groups.len(),
{
    if groups.len() == 0 {
        lemma_pow0(0x10000);
    } else {
        let init = groups.drop_last();
        lemma_number_bound(init);
        lemma_pow_adds(0x10000, init.len(), 1);
        lemma_pow1(0x10000);
        assert(pow(0x10000, groups.len()) == pow(0x10000, init.len()) * 0x10000);
    }
}

/// The powers of the base up to the eighth.
pub proof fn lemma_powers(k: nat)
    requires
        k <= 8,
    ensures
        pow(0x10000, 8) == 0x1_0000_0000_0000_0000_0000_0000_0000_0000,
        pow(0x10000, k) <= 0x1_0000_0000_0000_0000_0000_0000_0000_0000,
    decreases 8 - k,
{
    lemma_pow1(0x10000);
    lemma_pow_adds(0x10000, 1, 1);
    assert(pow(0x10000, 2) == 0x10000 * 0x10000);
    lemma_pow_adds(0x10000, 2, 2);
    assert(pow(0x10000, 4) == 0x1_0000_0000 * 0x1_0000_0000);
    lemma_pow_adds(0x10000, 4, 4);
    assert(pow(0x10000, 8) == 0x1_0000_0000_0000_0000 * 0x1_0000_0000_0000_0000);
    assert(pow(0x10000, 8) == 0x1_0000_0000_0000_0000_0000_0000_0000_0000);
    if k < 8 {
        lemma_powers(k + 1);
        lemma_pow_adds(0x10000, k, 1);
        lemma_pow_positive(0x10000, k);
    }
}

/// Groups are those of the number they form.
pub proof fn lemma_groups_of_number(groups: Seq<u16>)
    ensures
        low_groups(number_of(groups), groups.len()) == groups,
    decreases groups.len(),
{
    if groups.len() > 0 {
        let init = groups.drop_last();
        lemma_groups_of_number(init);
        let n = number_of(groups);
        assert(n / 0x10000 == number_of(init));
        assert(n % 0x10000 == groups.last() as nat);
        assert(low_groups(n, groups.len()) =~= groups);
    }
}

/// A number is formed by its groups, where there are enough of them.
pub proof fn lemma_number_of_groups(n: nat, k: nat)
    requires
        n < pow(0x10000, k),
    ensures
        low_groups(n, k).len() == k,
        number_of(low_groups(n, k)) == n,
    decreases k,
{
    if k == 0 {
        lemma_pow0(0x10000);
    } else {
        lemma_pow_adds(0x10000, (k - 1) as nat, 1);
        lemma_pow1(0x10000);
        assert(n / 0x10000 < pow(0x10000, (k - 1) as nat));
        lemma_number_of_groups(n / 0x10000, (k - 1) as nat);
        assert(low_groups(n, k).drop_last() =~= low_groups(n / 0x10000, (k - 1) as nat));
    }
}

/// An address is made of its groups, and eight groups are those of the address they make.
pub proof fn lemma_made_of_groups(a: Ipv6Addr, groups: Seq<u16>)
    ensures
        groups_of(a).len() == 8,
        of_groups(groups_of(a)) == a,
        groups.len() == 8 ==> groups_of(of_groups(groups)) == groups,
        groups.len() == 8 ==> number_of(groups) <= u128::MAX,
{
    lemma_powers(8);
    lemma_number_of_groups(a.bits as nat, 8);
    if groups.len() == 8 {
        lemma_number_bound(groups);
        lemma_groups_of_number(groups);
    }
}

// Texts and addresses

/// There is one longest run of zero groups that starts first.
pub proof fn lemma_longest_zero_run(groups: Seq<u16>, start: int, len: int)
    requires
        is_longest_zero_run(groups, start, len),
    ensures
        longest_zero_run(groups) == (start, len),
{
    let r = longest_zero_run(groups);
    assert(is_longest_zero_run(groups, (start, len).0, (start, len).1));
    assert(is_longest_zero_run(groups, r.0, r.1));
}

/// There is one first pair of colons.
pub proof fn lemma_first_gap(s: Seq<char>, i: int)
    requires
        is_first_gap(s, i),
    ensures
        has_gap(s),
        first_gap(s) == i,
{
    assert(is_first_gap(s, first_gap(s)));
}

/// A group reads back from its text, which holds no colon and no point.
pub proof fn lemma_group_text(g: u16)
    ensures
        ({
            let t = numeral::text_of(g as nat, 16);
            &&& t.len() >= 1
            &&& group_value(t) == Some(g)
            &&& forall|i: int|
                0 <= i < t.len() ==> (#[trigger] t[i]) != ':' && t[i] != '.' && t[i] != '/'
        }),
{
    numeral::lemma_text_round_trip(g as nat, 16);
    numeral::lemma_hexadecimal_length(g as nat);
    let t = numeral::text_of(g as nat, 16);
    assert forall|i: int| 0 <= i < t.len() implies (#[trigger] t[i]) != ':' && t[i] != '.' && t[i]
        != '/' by {
        numeral::lemma_text_chars(g as nat, 16, i);
    }
}

/// The text of at least one group neither starts nor ends with a colon and holds no two in a row.
pub proof fn lemma_groups_text_shape(groups: Seq<u16>)
    requires
        groups.len() >= 1,
    ensures
        groups_text(groups).len() >= 1,
        groups_text(groups)[0] != ':',
        groups_text(groups).last() != ':',
        forall|i: int| !gap_at(groups_text(groups), i),
    decreases groups.len(),
{
    let parts = group_texts(groups);
    let init = groups.drop_last();
    lemma_group_text(groups.last());
    let last = parts.last();
    assert(last == numeral::text_of(groups.last() as nat, 16));
    if groups.len() == 1 {
        assert(groups_text(groups) == last);
        assert(last[last.len() - 1] != ':');
    } else {
        lemma_groups_text_shape(init);
        assert(parts.drop_last() =~= group_texts(init));
        let front = groups_text(init);
        let whole = groups_text(groups);
        assert(whole == front.push(':') + last);
        assert(last[last.len() - 1] != ':');
        assert(last[0] != ':');
        assert(whole[0] == front[0]);
        assert(whole.last() == last[last.len() - 1]);
        assert forall|i: int| !gap_at(whole, i) by {
            if gap_at(whole, i) {
                if i + 1 < front.len() {
                    assert(gap_at(front, i));
                } else if i + 1 == front.len() {
                    assert(whole[i] == front.last());
                } else if i == front.len() {
                    assert(whole[i + 1] == last[0]);
                } else {
                    assert(whole[i] == last[i - front.len() - 1]);
                }
            }
        }
    }
}

/// The groups read back from their text.
pub proof fn lemma_groups_text_value(groups: Seq<u16>)
    ensures
        head_value(groups_text(groups)) == Some(groups),
        tail_value(groups_text(groups)) == Some(groups),
        groups.len() == 0 ==> groups_text(groups).len() == 0,
{
    let parts = group_texts(groups);
    if groups.len() == 0 {
        assert(groups == Seq::<u16>::empty());
    } else {
        lemma_groups_text_shape(groups);
        assert forall|i: int| 0 <= i < parts.len() implies !(#[trigger] parts[i]).contains(':')
            && group_value(parts[i]) == Some(groups[i]) by {
            lemma_group_text(groups[i]);
        }
        text::lemma_split_join(parts, ':');
        assert(parts.map_values(|p: Seq<char>| group_value(p).unwrap()) =~= groups);
        assert(plain_groups(parts) == Some(groups));
        let init = parts.drop_last();
        assert forall|i: int| 0 <= i < init.len() implies group_value(
            #[trigger] init[i],
        ) is Some by {
            assert(init[i] == parts[i]);
        }
        assert(init.map_values(|p: Seq<char>| group_value(p).unwrap()) =~= groups.drop_last());
        assert(parts[parts.len() - 1] == parts.last());
        assert(groups.drop_last().push(groups.last()) =~= groups);
        assert(mixed_groups(parts) == Some(groups));
    }
}

/// A text made of groups, two colons and groups falls apart at the two colons.
pub proof fn lemma_gap_between(head: Seq<u16>, tail: Seq<u16>)
    ensures
        ({
            let h = groups_text(head);
            let s = h.push(':').push(':') + groups_text(tail);
            is_first_gap(s, h.len() as int) && s.take(h.len() as int) == h && s.skip(
                h.len() as int + 2,
            ) == groups_text(tail)
        }),
{
    let h = groups_text(head);
    let t = groups_text(tail);
    let s = h.push(':').push(':') + t;
    lemma_groups_text_value(head);
    if head.len() > 0 {
        lemma_groups_text_shape(head);
    }
    assert(gap_at(s, h.len() as int));
    assert forall|j: int| #[trigger] gap_at(s, j) implies h.len() <= j by {
        if j < h.len() {
            assert(s[j] == h[j]);
            if j + 1 < h.len() {
                assert(gap_at(h, j));
            } else {
                assert(h[j] == h.last());
            }
        }
    }
    assert(s.take(h.len() as int) =~= h);
    assert(s.skip(h.len() as int + 2) =~= t);
}

/// Some run of zero groups is the longest and starts first.
pub proof fn lemma_longest_zero_run_exists(groups: Seq<u16>, n: int) -> (r: (int, int))
    requires
        0 <= n <= groups.len(),
    ensures
        is_longest_zero_run(groups.take(n), r.0, r.1),
    decreases n,
{
    let s = groups.take(n);
    if n == 0 {
        assert(is_longest_zero_run(s, 0, 0));
        (0, 0)
    } else {
        let (start, len) = lemma_longest_zero_run_exists(groups, n - 1);
        let p = groups.take(n - 1);
        assert forall|a: int, l: int| a + l <= n - 1 implies zero_run(p, a, l) == zero_run(
            s,
            a,
            l,
        ) by {
            assert(forall|i: int| 0 <= i < n - 1 ==> p[i] == s[i]);
        }
        // The zero groups at the end.
        let k = lemma_zero_suffix(s);
        if k > len {
            assert forall|a: int, l: int| #[trigger] zero_run(s, a, l) implies l <= k by {
                if a + l <= n - 1 {
                    assert(zero_run(p, a, l));
                } else if l > k {
                    assert(s[n - k - 1] == 0);
                }
            }
            assert forall|a: int| #[trigger] zero_run(s, a, k) implies n - k <= a by {
                if a < n - k {
                    assert(zero_run(p, a, k));
                }
            }
            assert(is_longest_zero_run(s, n - k, k));
            (n - k, k)
        } else {
            assert(zero_run(p, start, len));
            assert(zero_run(s, start, len));
            assert forall|a: int, l: int| #[trigger] zero_run(s, a, l) implies l <= len by {
                if a + l <= n - 1 {
                    assert(zero_run(p, a, l));
                } else if l > k {
                    assert(s[n - k - 1] == 0);
                }
            }
            assert forall|a: int| #[trigger] zero_run(s, a, len) implies start <= a by {
                if a + len <= n - 1 {
                    assert(zero_run(p, a, len));
                }
            }
            assert(is_longest_zero_run(s, start, len));
            (start, len)
        }
    }
}

/// How many zero groups stand at the end.
pub proof fn lemma_zero_suffix(s: Seq<u16>) -> (k: int)
    ensures
        0 <= k <= s.len(),
        zero_run(s, s.len() - k, k),
        k < s.len() ==> s[s.len() - k - 1] != 0,
    decreases s.len(),
{
    if s.len() == 0 || s.last() != 0 {
        0
    } else {
        let k = lemma_zero_suffix(s.drop_last());
        assert forall|i: int| s.len() - k - 1 <= i < s.len() implies s[i] == 0 by {
            if i < s.len() - 1 {
                assert(s.drop_last()[i] == s[i]);
            }
        }
        k + 1
    }
}

/// An IPv4-mapped address ends in the groups of its IPv4 address.
pub proof fn lemma_mapped_groups(a: Ipv6Addr)
    requires
        is_ipv4_mapped(a),
    ensures
        of_groups(zeros(5) + seq![0xffffu16] + ipv4_groups(low_ipv4(a))) == a,
{
    let low = a.bits as nat % 0x100000000;
    let groups = zeros(5) + seq![0xffffu16] + ipv4_groups(low_ipv4(a));
    let hi = (low / 0x10000) as u16;
    let lo = (low % 0x10000) as u16;
    assert(groups.drop_last() =~= zeros(5) + seq![0xffffu16] + seq![hi]);
    assert(groups.drop_last().drop_last() =~= zeros(5) + seq![0xffffu16]);
    assert(groups.drop_last().drop_last().drop_last() =~= zeros(5));
    lemma_zeros_number(5);
    assert(number_of(zeros(5) + seq![0xffffu16]) == 0xffff);
    assert(number_of(zeros(5) + seq![0xffffu16] + seq![hi]) == 0xffff0000 + hi);
    assert(number_of(groups) == (0xffff0000 + hi) * 0x10000 + lo);
    assert(low / 0x10000 < 0x10000);
    assert(hi == low / 0x10000 && lo == low % 0x10000);
    assert(low == (low / 0x10000) * 0x10000 + low % 0x10000);
    assert(a.bits as nat == 0xffff * 0x100000000 + low);
}

/// Zero groups form the number zero.
pub proof fn lemma_zeros_number(n: int)
    requires
        n >= 0,
    ensures
        number_of(zeros(n)) == 0,
    decreases n,
{
    if n > 0 {
        assert(zeros(n).drop_last() =~= zeros(n - 1));
        lemma_zeros_number(n - 1);
    }
}

/// The end of an IPv4-mapped address's text denotes three groups.
pub proof fn lemma_mapped_tail(v4: Ipv4Addr)
    ensures
        tail_value(seq!['f', 'f', 'f', 'f'].push(':') + ipv4::ipv4_text(v4)) == Some(
            seq![0xffffu16] + ipv4_groups(v4),
        ),
{
    let ffff = seq!['f', 'f', 'f', 'f'];
    let t = ipv4::ipv4_text(v4);
    let rest = ffff.push(':') + t;
    ipv4::lemma_ipv4_text_chars(v4);
    ipv4::lemma_ipv4_round_trip(v4);
    text::lemma_split_concat(ffff, ':', t);
    text::lemma_split_free(ffff, ':');
    text::lemma_split_free(t, ':');
    let parts = seq![ffff, t];
    assert(text::split(rest, ':') =~= parts);
    assert(parts.drop_last() =~= seq![ffff]);
    lemma_mapped_group_text(ffff);
    assert(seq![ffff].map_values(|p: Seq<char>| group_value(p).unwrap()) =~= seq![0xffffu16]);
    assert(plain_groups(seq![ffff]) == Some(seq![0xffffu16]));
    ipv4::lemma_ipv4_text_unfold(v4);
    let dot = numeral::decimal(ipv4::octet(v4, 0)).len() as int;
    assert(t[dot] == '.');
    assert(group_value(t) is None);
    assert(parts.last() == t);
}

/// An IPv4-mapped address reads back from its text.
pub proof fn lemma_mapped_round_trip(a: Ipv6Addr)
    requires
        is_ipv4_mapped(a),
    ensures
        ipv6_value(ipv6_text(a)) == Some(a),
{
    let s = ipv6_text(a);
    let v4 = low_ipv4(a);
    assert(gap_at(s, 0));
    lemma_first_gap(s, 0);
    assert(s.take(0) =~= Seq::<char>::empty());
    assert(s.skip(2) =~= seq!['f', 'f', 'f', 'f'].push(':') + ipv4::ipv4_text(v4));
    lemma_mapped_tail(v4);
    let tail = seq![0xffffu16] + ipv4_groups(v4);
    assert(Seq::<u16>::empty() + zeros(5) + tail =~= zeros(5) + seq![0xffffu16] + ipv4_groups(v4));
    lemma_mapped_groups(a);
}

/// An address reads back from its text.
pub proof fn lemma_ipv6_round_trip(a: Ipv6Addr)
    ensures
        ipv6_value(ipv6_text(a)) == Some(a),
{
    let s = ipv6_text(a);
    if is_ipv4_mapped(a) {
        lemma_mapped_round_trip(a);
    } else {
        let groups = groups_of(a);
        lemma_made_of_groups(a, groups);
        let (start, len) = lemma_longest_zero_run_exists(groups, 8);
        assert(groups.take(8) =~= groups);
        lemma_longest_zero_run(groups, start, len);
        if len > 1 {
            let head = groups.take(start);
            let tail = groups.skip(start + len);
            lemma_gap_between(head, tail);
            lemma_first_gap(s, groups_text(head).len() as int);
            lemma_groups_text_value(head);
            lemma_groups_text_value(tail);
            assert(head + zeros(len) + tail =~= groups);
        } else {
            lemma_groups_text_shape(groups);
            lemma_groups_text_value(groups);
        }
    }
}

/// Four letters `f` denote the highest group.
pub proof fn lemma_mapped_group_text(s: Seq<char>)
    requires
        s == seq!['f', 'f', 'f', 'f'],
    ensures
        group_value(s) == Some(0xffffu16),
{
    reveal_with_fuel(numeral::value_of, 5);
    assert(s.drop_last() =~= seq!['f', 'f', 'f']);
    assert(s.drop_last().drop_last() =~= seq!['f', 'f']);
    assert(s.drop_last().drop_last().drop_last() =~= seq!['f']);
    assert(numeral::digit_value('f', 16) == Some(15nat));
    assert(numeral::value_of(seq!['f'], 16) == 15);
    assert(numeral::value_of(seq!['f', 'f'], 16) == 0xff);
    assert(numeral::value_of(seq!['f', 'f', 'f'], 16) == 0xfff);
}

/// The text of groups with one more at the end.
pub proof fn lemma_groups_text_push(groups: Seq<u16>, g: u16)
    ensures
        groups_text(groups.push(g)) == (if groups.len() == 0 {
            numeral::text_of(g as nat, 16)
        } else {
            groups_text(groups).push(':') + numeral::text_of(g as nat, 16)
        }),
{
    let parts = group_texts(groups.push(g));
    assert(parts.drop_last() =~= group_texts(groups));
    assert(parts.last() == numeral::text_of(g as nat, 16));
}

// Reading and writing

/// Appends the last `k` groups of `n`.
fn push_low_groups(out: &mut Vec<u16>, n: u128, k: usize)
    ensures
        final(out)@ == old(out)@ + low_groups(n as nat, k as nat),
    decreases k,
{
    let ghost before = out@;
    if k > 0 {
        push_low_groups(out, n / 0x10000, k - 1);
        out.push((n % 0x10000) as u16);
    }
    assert(out@ =~= before + low_groups(n as nat, k as nat));
}

/// The number that eight groups form.
fn number_of_groups(groups: &Vec<u16>) -> (r: u128)
    requires
        groups.len() == 8,
    ensures
        r == number_of(groups@),
{
    let mut n: u128 = 0;
    let mut i: usize = 0;
    while i < groups.len()
        invariant
            i <= groups.len() == 8,
            n == number_of(groups@.take(i as int)),
        decreases groups.len() - i,
    {
        proof {
            assert(groups@.take(i + 1).drop_last() == groups@.take(i as int));
            lemma_number_bound(groups@.take(i + 1));
            lemma_powers((i + 1) as nat);
        }
        n = n * 0x10000 + groups[i] as u128;
        i += 1;
    }
    assert(groups@.take(8) == groups@);
    n
}

/// The first among the longest runs of zero groups.
fn find_longest_zero_run(groups: &Vec<u16>) -> (r: (usize, usize))
    ensures
        is_longest_zero_run(groups@, r.0 as int, r.1 as int),
{
    let mut start: usize = 0;
    let mut len: usize = 0;
    let mut current: usize = 0;
    let mut i: usize = 0;
    while i < groups.len()
        invariant
            i <= groups.len(),
            current <= i,
            start + len <= i,
            zero_run(groups@, start as int, len as int),
            zero_run(groups@, i - current, current as int),
            current < i ==> groups@[i - current - 1] != 0,
            forall|a: int, l: int| #[trigger]
                zero_run(groups@, a, l) && a + l <= i ==> l <= len && (l == len ==> start <= a),
        decreases groups.len() - i,
    {
        if groups[i] == 0 {
            proof {
                assert forall|a: int, l: int| #[trigger]
                    zero_run(groups@, a, l) && a + l == i + 1 implies l <= current + 1 by {
                    if l > current + 1 {
                        assert(groups@[i - current - 1] == 0);
                    }
                }
            }
            current += 1;
            if current > len {
                start = i + 1 - current;
                len = current;
            }
        } else {
            proof {
                assert forall|a: int, l: int| #[trigger]
                    zero_run(groups@, a, l) && a + l == i + 1 implies l == 0 by {
                    if l > 0 {
                        assert(groups@[i as int] == 0);
                    }
                }
            }
            current = 0;
        }
        i += 1;
    }
    (start, len)
}

/// Appends the groups from `from` up to `to` in hexadecimal with colons between them.
fn push_groups_text(out: &mut String, groups: &Vec<u16>, from: usize, to: usize)
    requires
        from <= to <= groups.len(),
    ensures
        final(out)@ == old(out)@ + groups_text(groups@.subrange(from as int, to as int)),
{
    let ghost before = out@;
    let mut i: usize = from;
    proof {
        assert(groups@.subrange(from as int, from as int) =~= Seq::<u16>::empty());
        lemma_groups_text_value(Seq::<u16>::empty());
        assert(out@ =~= before + groups_text(groups@.subrange(from as int, i as int)));
    }
    while i < to
        invariant
            from <= i <= to <= groups.len(),
            out@ == before + groups_text(groups@.subrange(from as int, i as int)),
        decreases to - i,
    {
        let ghost part = groups@.subrange(from as int, i as int);
        proof {
            assert(groups@.subrange(from as int, i + 1) =~= part.push(groups@[i as int]));
            lemma_groups_text_push(part, groups@[i as int]);
            lemma_groups_text_value(part);
        }
        if i > from {
            out.push(':');
        }
        numeral::push_number(out, groups[i] as u128, 16);
        proof {
            assert(out@ =~= before + groups_text(groups@.subrange(from as int, i + 1)));
        }
        i += 1;
    }
}

impl Ipv6Addr {
    /// Appends the text of the address.
    pub fn push_text(&self, out: &mut String)
        ensures
            final(out)@ == old(out)@ + ipv6_text(*self),
    {
        let ghost before = out@;
        if self.bits / 0x100000000 == 0xffff {
            out.push(':');
            out.push(':');
            out.push('f');
            out.push('f');
            out.push('f');
            out.push('f');
            out.push(':');
            let low = Ipv4Addr { bits: (self.bits % 0x100000000) as u32 };
            low.push_text(out);
            proof {
                assert(out@ =~= before + ipv6_text(*self));
            }
            return;
        }
        let mut groups: Vec<u16> = Vec::new();
        push_low_groups(&mut groups, self.bits, 8);
        proof {
            assert(groups@ =~= groups_of(*self));
            lemma_made_of_groups(*self, groups@);
        }
        let (start, len) = find_longest_zero_run(&groups);
        proof {
            lemma_longest_zero_run(groups@, start as int, len as int);
        }
        if len > 1 {
            push_groups_text(out, &groups, 0, start);
            out.push(':');
            out.push(':');
            push_groups_text(out, &groups, start + len, groups.len());
            proof {
                assert(groups@.subrange(0, start as int) =~= groups@.take(start as int));
                assert(groups@.subrange(start + len, groups@.len() as int) =~= groups@.skip(
                    start + len,
                ));
                assert(out@ =~= before + ipv6_text(*self));
            }
        } else {
            push_groups_text(out, &groups, 0, groups.len());
            proof {
                assert(groups@.subrange(0, groups@.len() as int) =~= groups@);
            }
        }
    }

    /// The text of the address.
    pub fn to_string(&self) -> (r: String)
        ensures
            r@ == ipv6_text(*self),
    {
        let mut out = String::new();
        self.push_text(&mut out);
        proof {
            assert(out@ =~= ipv6_text(*self));
        }
        out
    }
}

/// The group that the characters denote.
fn parse_group(p: &Vec<char>) -> (r: Option<u16>)
    ensures
        r == group_value(p@),
{
    if p.len() < 1 || p.len() > 4 {
        return None;
    }
    match numeral::short_value(p, 16) {
        Some(v) => Some(v as u16),
        None => None,
    }
}

/// The groups that the first `count` parts denote, where each denotes one.
fn parse_plain_groups(parts: &Vec<Vec<char>>, count: usize) -> (r: Option<Vec<u16>>)
    requires
        count <= parts.len(),
    ensures
        r is Some == plain_groups(text::pieces(parts@).take(count as int)) is Some,
        r matches Some(v) ==> plain_groups(text::pieces(parts@).take(count as int)) == Some(v@),
{
    let mut out: Vec<u16> = Vec::new();
    let ghost wanted = text::pieces(parts@).take(count as int);
    let mut i: usize = 0;
    while i < count
        invariant
            i <= count <= parts.len(),
            wanted == text::pieces(parts@).take(count as int),
            out.len() == i,
            forall|j: int| 0 <= j < i ==> group_value(#[trigger] wanted[j]) == Some(out@[j]),
        decreases count - i,
    {
        proof {
            assert(wanted[i as int] == parts@[i as int]@);
        }
        match parse_group(&parts[i]) {
            Some(g) => {
                out.push(g);
            },
            None => {
                return None;
            },
        }
        i += 1;
    }
    proof {
        assert(wanted.map_values(|p: Seq<char>| group_value(p).unwrap()) =~= out@);
    }
    Some(out)
}

/// The groups before a double colon.
fn parse_head(s: &Vec<char>) -> (r: Option<Vec<u16>>)
    ensures
        r is Some == head_value(s@) is Some,
        r matches Some(v) ==> head_value(s@) == Some(v@),
{
    if s.len() == 0 {
        let none: Vec<u16> = Vec::new();
        proof {
            assert(none@ =~= Seq::<u16>::empty());
        }
        return Some(none);
    }
    let parts = text::split_chars(s, ':');
    proof {
        assert(text::pieces(parts@).take(parts@.len() as int) =~= text::pieces(parts@));
    }
    parse_plain_groups(&parts, parts.len())
}

/// The groups at the end of an address.
fn parse_tail(s: &Vec<char>) -> (r: Option<Vec<u16>>)
    ensures
        r is Some == tail_value(s@) is Some,
        r matches Some(v) ==> tail_value(s@) == Some(v@),
{
    if s.len() == 0 {
        let none: Vec<u16> = Vec::new();
        proof {
            assert(none@ =~= Seq::<u16>::empty());
        }
        return Some(none);
    }
    let parts = text::split_chars(s, ':');
    let ghost all = text::pieces(parts@);
    proof {
        text::lemma_split_nonempty(s@, ':');
        assert(all.take(parts@.len() - 1) =~= all.drop_last());
        assert(all.last() == parts@[parts@.len() - 1]@);
    }
    let last = parts.len() - 1;
    match parse_plain_groups(&parts, last) {
        None => None,
        Some(mut groups) => {
            match parse_group(&parts[last]) {
                Some(g) => {
                    groups.push(g);
                    Some(groups)
                },
                None => match ipv4::parse_ipv4_chars(&parts[last]) {
                    Some(a) => {
                        let ghost init = groups@;
                        groups.push((a.bits / 0x10000) as u16);
                        groups.push((a.bits % 0x10000) as u16);
                        proof {
                            assert(groups@ =~= init + ipv4_groups(a));
                        }
                        Some(groups)
                    },
                    None => None,
                },
            }
        },
    }
}

/// Where the first two colons in a row stand.
fn find_gap(s: &Vec<char>) -> (r: Option<usize>)
    ensures
        r is Some == has_gap(s@),
        r matches Some(i) ==> is_first_gap(s@, i as int),
{
    let mut i: usize = 0;
    while i < s.len()
        invariant
            i <= s.len(),
            forall|j: int| j < i ==> !gap_at(s@, j),
        decreases s.len() - i,
    {
        if s[i] == ':' && i + 1 < s.len() && s[i + 1] == ':' {
            proof {
                assert(gap_at(s@, i as int));
            }
            return Some(i);
        }
        i += 1;
    }
    None
}

/// The address that the characters denote.
pub fn parse_ipv6_chars(s: &Vec<char>) -> (r: Option<Ipv6Addr>)
    ensures
        r == ipv6_value(s@),
{
    match find_gap(s) {
        Some(i) => {
            proof {
                lemma_first_gap(s@, i as int);
                assert(i + 2 <= s.len());
                assert(s@.subrange(0, i as int) =~= s@.take(i as int));
                assert(s@.subrange(i + 2, s@.len() as int) =~= s@.skip(i + 2));
            }
            let head = parse_head(&text::slice_of(s, 0, i));
            let tail = parse_tail(&text::slice_of(s, i + 2, s.len()));
            match (head, tail) {
                (Some(head), Some(tail)) => {
                    if head.len() > 7 || tail.len() > 7 - head.len() {
                        return None;
                    }
                    let ghost wanted = head@ + zeros(8 - head@.len() - tail@.len()) + tail@;
                    let mut groups: Vec<u16> = head;
                    let mut k: usize = groups.len();
                    let ghost h = k;
                    while k < 8 - tail.len()
                        invariant
                            h <= k <= 8 - tail.len(),
                            tail.len() <= 8,
                            groups@ == head@ + zeros(k - h),
                        decreases 8 - k,
                    {
                        groups.push(0);
                        k += 1;
                        proof {
                            assert(groups@ =~= head@ + zeros(k - h));
                        }
                    }
                    let mut j: usize = 0;
                    while j < tail.len()
                        invariant
                            j <= tail.len(),
                            groups@ == head@ + zeros(k - h) + tail@.take(j as int),
                        decreases tail.len() - j,
                    {
                        groups.push(tail[j]);
                        j += 1;
                        proof {
                            assert(groups@ =~= head@ + zeros(k - h) + tail@.take(j as int));
                        }
                    }
                    proof {
                        assert(groups@ =~= wanted);
                    }
                    Some(Ipv6Addr { bits: number_of_groups(&groups) })
                },
                _ => None,
            }
        },
        None => match parse_tail(s) {
            Some(groups) => {
                if groups.len() == 8 {
                    Some(Ipv6Addr { bits: number_of_groups(&groups) })
                } else {
                    None
                }
            },
            None => None,
        },
    }
}

impl std::str::FromStr for Ipv6Addr {
    type Err = ipv4::AddrParseError;

    fn from_str(s: &str) -> (r: Result<Self, Self::Err>)
        ensures
            r is Ok == ipv6_value(s@) is Some,
            r matches Ok(a) ==> ipv6_value(s@) == Some(a),
    {
        match parse_ipv6_chars(&text::chars_of(s)) {
            Some(a) => Ok(a),
            None => Err(ipv4::AddrParseError {  }),
        }
    }
}

// Laws

/// An address has eight groups of sixteen bits, the highest first.
pub proof fn law_ipv6_groups(a: Ipv6Addr)
    ensures
        ({
            let g = groups_of(a);
            &&& g.len() == 8
            &&& a.bits as nat == ((((((g[0] * 0x10000 + g[1]) * 0x10000 + g[2]) * 0x10000 + g[3])
                * 0x10000 + g[4]) * 0x10000 + g[5]) * 0x10000 + g[6]) * 0x10000 + g[7]
        }),
{
    let g = groups_of(a);
    lemma_made_of_groups(a, g);
    lemma_number_unfold(g);
}

/// Eight groups make the address that they are the groups of.
pub proof fn law_ipv6_of_groups(g: Seq<u16>)
    requires
        g.len() == 8,
    ensures
        of_groups(g).bits as nat == ((((((g[0] * 0x10000 + g[1]) * 0x10000 + g[2]) * 0x10000 + g[3])
            * 0x10000 + g[4]) * 0x10000 + g[5]) * 0x10000 + g[6]) * 0x10000 + g[7],
{
    lemma_made_of_groups(Ipv6Addr { bits: 0 }, g);
    lemma_number_unfold(g);
}

proof fn lemma_number_unfold(g: Seq<u16>)
    requires
        g.len() == 8,
    ensures
        number_of(g) == ((((((g[0] * 0x10000 + g[1]) * 0x10000 + g[2]) * 0x10000 + g[3]) * 0x10000
            + g[4]) * 0x10000 + g[5]) * 0x10000 + g[6]) * 0x10000 + g[7],
{
    reveal_with_fuel(number_of, 9);
    let s7 = g.drop_last();
    let s6 = s7.drop_last();
    let s5 = s6.drop_last();
    let s4 = s5.drop_last();
    let s3 = s4.drop_last();
    let s2 = s3.drop_last();
    let s1 = s2.drop_last();
    assert(number_of(s1) == g[0]);
    assert(number_of(s2) == g[0] * 0x10000 + g[1]);
}

/// Groups are written in hexadecimal, in lower case and without needless zeros, with colons between
/// them.
pub proof fn law_groups_are_written(groups: Seq<u16>, g: u16)
    ensures
        groups_text(Seq::empty()).len() == 0,
        groups.len() == 0 ==> groups_text(groups.push(g)) == numeral::text_of(g as nat, 16),
        groups.len() > 0 ==> groups_text(groups.push(g)) == groups_text(groups) + seq![':']
            + numeral::text_of(g as nat, 16),
{
    lemma_groups_text_value(Seq::empty());
    lemma_groups_text_push(groups, g);
    if groups.len() > 0 {
        assert(groups_text(groups.push(g)) =~= groups_text(groups) + seq![':'] + numeral::text_of(
            g as nat,
            16,
        ));
    }
}

/// An address with two bytes of ones before its last four bytes, and nothing before them, is written
/// as `::ffff:` and an IPv4 address.
pub proof fn law_ipv6_text_of_ipv4(a: Ipv6Addr)
    requires
        a.bits as nat / 0x1_0000_0000 == 0xffff,
    ensures
        ipv6_text(a) == "::ffff:"@ + ipv4::ipv4_text(
            Ipv4Addr { bits: (a.bits as nat % 0x1_0000_0000) as u32 },
        ),
{
    reveal_strlit("::ffff:");
    assert("::ffff:"@ =~= mapped_prefix());
}

/// Of any other address the first among the longest runs of zero groups is written as two colons,
/// where it has two groups or more.
pub proof fn law_ipv6_text_with_gap(a: Ipv6Addr, start: int, end: int)
    requires
        a.bits as nat / 0x1_0000_0000 != 0xffff,
        0 <= start <= end <= 8,
        end - start >= 2,
        forall|i: int| start <= i < end ==> groups_of(a)[i] == 0,
        forall|b: int, e: int|
            0 <= b <= e <= 8 && #[trigger] groups_of(a).subrange(b, e) == Seq::new(
                (e - b) as nat,
                |i: int| 0u16,
            ) ==> e - b < end - start || (e - b == end - start && b >= start),
    ensures
        ipv6_text(a) == groups_text(groups_of(a).take(start)) + seq![':', ':'] + groups_text(
            groups_of(a).skip(end),
        ),
{
    let g = groups_of(a);
    let len = end - start;
    lemma_made_of_groups(a, g);
    assert forall|b: int, l: int| #[trigger] zero_run(g, b, l) implies l < len || (l == len && b
        >= start) by {
        assert(g.subrange(b, b + l) =~= Seq::new(l as nat, |i: int| 0u16));
    }
    assert(zero_run(g, start, len));
    lemma_longest_zero_run(g, start, len);
    assert(ipv6_text(a) =~= groups_text(g.take(start)) + seq![':', ':'] + groups_text(
        g.skip(end),
    ));
}

/// An address that stands for no IPv4 address and has no two zero groups in a row is written with
/// all of its groups.
pub proof fn law_ipv6_text_without_gap(a: Ipv6Addr)
    requires
        a.bits as nat / 0x1_0000_0000 != 0xffff,
        forall|i: int| 0 <= i < 7 ==> !(#[trigger] groups_of(a)[i] == 0 && groups_of(a)[i + 1] == 0),
    ensures
        ipv6_text(a) == groups_text(groups_of(a)),
{
    let g = groups_of(a);
    lemma_made_of_groups(a, g);
    let (start, len) = lemma_longest_zero_run_exists(g, 8);
    assert(g.take(8) =~= g);
    lemma_longest_zero_run(g, start, len);
    if len > 1 {
        assert(g[start] == 0 && g[start + 1] == 0);
    }
}

/// A group is read from one to four hexadecimal digits, by their value.
pub proof fn law_groups_are_read(p: Seq<char>)
    ensures
        group_value(p) is Some <==> 1 <= p.len() <= 4 && numeral::all_digits(p, 16),
        group_value(p) matches Some(g) ==> g == numeral::value_of(p, 16),
{
    if 1 <= p.len() <= 4 && numeral::all_digits(p, 16) {
        lemma_short_value(p);
    }
}

proof fn lemma_short_value(p: Seq<char>)
    requires
        p.len() <= 4,
        numeral::all_digits(p, 16),
    ensures
        numeral::value_of(p, 16) < 0x10000,
        p.len() <= 3 ==> numeral::value_of(p, 16) < 0x1000,
        p.len() <= 2 ==> numeral::value_of(p, 16) < 0x100,
        p.len() <= 1 ==> numeral::value_of(p, 16) < 0x10,
    decreases p.len(),
{
    if p.len() > 0 {
        let init = p.drop_last();
        assert forall|i: int| 0 <= i < init.len() implies numeral::digit_value(
            #[trigger] init[i],
            16,
        ) is Some by {
            assert(init[i] == p[i]);
        }
        lemma_short_value(init);
        assert(numeral::digit_value(p[p.len() - 1], 16) is Some);
        assert(numeral::value_of(p, 16) == numeral::value_of(init, 16) * 16
            + numeral::digit_value(p.last(), 16).unwrap());
    }
}

/// Parts are read as one group each.
pub proof fn law_parts_are_read(parts: Seq<Seq<char>>, groups: Seq<u16>)
    ensures
        plain_groups(parts) == Some(groups) <==> groups.len() == parts.len() && forall|i: int|
            0 <= i < parts.len() ==> group_value(#[trigger] parts[i]) == Some(groups[i]),
{
    let read = parts.map_values(|p: Seq<char>| group_value(p).unwrap());
    if groups.len() == parts.len() && forall|i: int|
        0 <= i < parts.len() ==> group_value(#[trigger] parts[i]) == Some(groups[i]) {
        assert(read =~= groups);
    }
}

/// The last of the parts may also be an IPv4 address, which counts as the two groups that its bytes
/// make.
pub proof fn law_last_part_is_read(parts: Seq<Seq<char>>, last: Seq<char>)
    ensures
        plain_groups(parts) is None ==> mixed_groups(parts.push(last)) is None,
        plain_groups(parts) matches Some(groups) ==> {
            &&& group_value(last) matches Some(g) ==> mixed_groups(parts.push(last)) == Some(
                groups.push(g),
            )
            &&& group_value(last) is None ==> (ipv4::ipv4_value(last) matches Some(a)
                ==> mixed_groups(parts.push(last)) == Some(
                groups.push((a.bits as nat / 0x10000) as u16).push(
                    (a.bits as nat % 0x10000) as u16,
                ),
            ))
            &&& group_value(last) is None && ipv4::ipv4_value(last) is None ==> mixed_groups(
                parts.push(last),
            ) is None
        },
{
    assert(parts.push(last).drop_last() =~= parts);
    if let Some(groups) = plain_groups(parts) {
        if let Some(a) = ipv4::ipv4_value(last) {
            let hi = (a.bits as nat / 0x10000) as u16;
            let lo = (a.bits as nat % 0x10000) as u16;
            assert(groups + ipv4_groups(a) =~= groups.push(hi).push(lo));
        }
    }
}

/// A text without two colons in a row denotes an address exactly where its parts between the colons
/// make eight groups.
pub proof fn law_ipv6_reading_without_gap(s: Seq<char>)
    requires
        forall|i: int| 0 <= i < s.len() - 1 ==> !(#[trigger] s[i] == ':' && s[i + 1] == ':'),
    ensures
        s.len() == 0 ==> ipv6_value(s) is None,
        s.len() > 0 ==> match mixed_groups(text::split(s, ':')) {
            Some(groups) => if groups.len() == 8 {
                ipv6_value(s) == Some(of_groups(groups))
            } else {
                ipv6_value(s) is None
            },
            None => ipv6_value(s) is None,
        },
{
    assert forall|i: int| !gap_at(s, i) by {
        if gap_at(s, i) {
            assert(s[i] == ':' && s[i + 1] == ':');
        }
    }
}

/// A text with two colons in a row denotes an address exactly where what stands before and after the
/// first such pair makes at most seven groups; zero groups fill the place of the pair.
pub proof fn law_ipv6_reading_with_gap(front: Seq<char>, back: Seq<char>)
    requires
        forall|i: int|
            0 <= i < front.len() - 1 ==> !(#[trigger] front[i] == ':' && front[i + 1] == ':'),
        front.len() > 0 ==> front.last() != ':',
    ensures
        ({
            let before = if front.len() == 0 {
                Some(Seq::<u16>::empty())
            } else {
                plain_groups(text::split(front, ':'))
            };
            let after = if back.len() == 0 {
                Some(Seq::<u16>::empty())
            } else {
                mixed_groups(text::split(back, ':'))
            };
            let read = ipv6_value(front + seq![':', ':'] + back);
            &&& before is None || after is None ==> read is None
            &&& before matches Some(x) ==> (after matches Some(y) ==> {
                &&& x.len() + y.len() > 7 ==> read is None
                &&& x.len() + y.len() <= 7 ==> read == Some(
                    of_groups(
                        x + Seq::new((8 - x.len() - y.len()) as nat, |i: int| 0u16) + y,
                    ),
                )
            })
        }),
{
    let s = front + seq![':', ':'] + back;
    let k = front.len() as int;
    assert(s[k] == ':' && s[k + 1] == ':');
    assert forall|j: int| #[trigger] gap_at(s, j) implies k <= j by {
        if j < k {
            assert(s[j] == front[j]);
            if j + 1 < k {
                assert(s[j + 1] == front[j + 1]);
            } else {
                assert(front.last() == front[j]);
            }
        }
    }
    assert(is_first_gap(s, k));
    lemma_first_gap(s, k);
    assert(s.take(k) =~= front);
    assert(s.skip(k + 2) =~= back);
    let before = head_value(front);
    let after = tail_value(back);
    if before is Some && after is Some {
        let n = 8 - before.unwrap().len() - after.unwrap().len();
        assert(zeros(n) =~= Seq::new(n as nat, |i: int| 0u16));
    }
}

} // verus!
