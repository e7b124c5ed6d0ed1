//! What a discovery scan is aimed at.
use vstd::prelude::*;

use crate::address;
use crate::address::IpAddr;
use crate::error;
use crate::error::{Error, ErrorView, NumberFault};
use crate::ipv4;
use crate::ipv4::Ipv4Addr;
use crate::numeral;
use crate::subnet;
use crate::text;

verus! {

/// A scan target: what was asked for, and the address to send to.
#[derive(Debug, Clone, PartialEq, Eq)]
pub struct DiscoveryTarget {
    pub requested: String,
    pub scan_address: String,
}

/// A scan target with its texts as sequences of characters.
pub struct DiscoveryTargetView {
    pub requested: Seq<char>,
    pub scan_address: Seq<char>,
}

impl View for DiscoveryTarget {
    type V = DiscoveryTargetView;

    open spec fn view(&self) -> DiscoveryTargetView {
        DiscoveryTargetView { requested: self.requested@, scan_address: self.scan_address@ }
    }
}

/// The views of the targets.
pub open spec fn target_views(ts: Seq<DiscoveryTarget>) -> Seq<DiscoveryTargetView> {
    ts.map_values(|t: DiscoveryTarget| t@)
}

/// The number from 0 to 255 that digits denote, or the first fault met from the left.
pub open spec fn digits_outcome(s: Seq<char>) -> Result<nat, NumberFault>
    decreases s.len(),
{
    if s.len() == 0 {
        Ok(0)
    } else {
        match digits_outcome(s.drop_last()) {
            Err(fault) => Err(fault),
            Ok(v) => match numeral::digit_value(s.last(), 10) {
                None => Err(NumberFault::InvalidDigit),
                Some(d) => if v * 10 + d > 255 {
                    Err(NumberFault::Overflow)
                } else {
                    Ok(v * 10 + d)
                },
            },
        }
    }
}

/// The number from 0 to 255 that `s` denotes: decimal digits, with or without a plus sign.
pub open spec fn number_outcome(s: Seq<char>) -> Result<nat, NumberFault> {
    if s.len() == 0 {
        Err(NumberFault::Empty)
    } else if s[0] == '+' {
        if s.len() == 1 {
            Err(NumberFault::InvalidDigit)
        } else {
            digits_outcome(s.drop_first())
        }
    } else {
        digits_outcome(s)
    }
}

/// Whether `c` first occurs in `s` at `i`.
pub open spec fn is_first_at(s: Seq<char>, c: char, i: int) -> bool {
    0 <= i < s.len() && s[i] == c && forall|j: int| 0 <= j < i ==> s[j] != c
}

/// Where `c` first occurs in `s`.
pub open spec fn first_at(s: Seq<char>, c: char) -> int {
    choose|i: int| is_first_at(s, c, i)
}

/// The target that a trimmed text with a slash in it stands for: the broadcast address of an IPv4
/// subnet.
pub open spec fn cidr_outcome(t: Seq<char>) -> Result<DiscoveryTargetView, ErrorView> {
    let slash = first_at(t, '/');
    let prefix = t.skip(slash + 1);
    if prefix.contains('/') {
        Err(ErrorView::InvalidCidrTarget { target: t })
    } else {
        match ipv4::ipv4_value(t.take(slash)) {
            None => Err(ErrorView::InvalidCidrAddress { target: t }),
            Some(ip) => match number_outcome(prefix) {
                Err(fault) => Err(ErrorView::InvalidCidrPrefix { target: t, fault }),
                Ok(p) => if p > 32 {
                    Err(ErrorView::CidrPrefixTooLong { target: t })
                } else {
                    Ok(
                        DiscoveryTargetView {
                            requested: t,
                            scan_address: ipv4::ipv4_text(subnet::broadcast_address(ip, p)),
                        },
                    )
                },
            },
        }
    }
}

/// The target that a text stands for: an IP address, or an IPv4 subnet in CIDR notation.
pub open spec fn target_outcome(s: Seq<char>) -> Result<DiscoveryTargetView, ErrorView> {
    let t = text::trimmed(s);
    if t.len() == 0 {
        Err(ErrorView::EmptyTarget)
    } else if t.contains('/') {
        cidr_outcome(t)
    } else {
        match address::ip_value(t) {
            Some(ip) => Ok(
                DiscoveryTargetView { requested: t, scan_address: address::ip_text(ip) },
            ),
            None => Err(ErrorView::InvalidTarget { target: t }),
        }
    }
}

/// The targets that texts stand for in order, or the first error among them.
pub open spec fn all_outcomes(texts: Seq<Seq<char>>) -> Result<Seq<DiscoveryTargetView>, ErrorView>
    decreases texts.len(),
{
    if texts.len() == 0 {
        Ok(Seq::empty())
    } else {
        match all_outcomes(texts.drop_last()) {
            Err(e) => Err(e),
            Ok(before) => match target_outcome(texts.last()) {
                Err(e) => Err(e),
                Ok(t) => Ok(before.push(t)),
            },
        }
    }
}

/// The characters of each string.
pub open spec fn texts_of(v: Seq<String>) -> Seq<Seq<char>> {
    v.map_values(|s: String| s@)
}

/// The text of the limited broadcast address.
pub open spec fn limited_broadcast() -> Seq<char> {
    "255.255.255.255"@
}

/// The targets of a scan: those asked for, or else the automatic ones, or else the limited
/// broadcast address.
pub open spec fn scan_outcome(
    positional: Seq<Seq<char>>,
    flags: Seq<Seq<char>>,
    auto: Seq<DiscoveryTargetView>,
) -> Result<Seq<DiscoveryTargetView>, ErrorView> {
    if positional.len() == 0 && flags.len() == 0 {
        if auto.len() == 0 {
            Ok(
                seq![
                    DiscoveryTargetView {
                        requested: limited_broadcast(),
                        scan_address: limited_broadcast(),
                    },
                ],
            )
        } else {
            Ok(auto)
        }
    } else {
        all_outcomes(positional + flags)
    }
}

/// What a fallible call that makes targets came to.
pub open spec fn targets_outcome(r: Result<Vec<DiscoveryTarget>, Error>) -> Result<
    Seq<DiscoveryTargetView>,
    ErrorView,
> {
    match r {
        Ok(v) => Ok(target_views(v@)),
        Err(e) => Err(e@),
    }
}

/// A character that occurs has one first place.
pub proof fn lemma_first_at(s: Seq<char>, c: char, i: int)
    requires
        is_first_at(s, c, i),
    ensures
        first_at(s, c) == i,
        s.contains(c),
{
    let k = first_at(s, c);
    assert(is_first_at(s, c, k));
}

/// The text of an address is a target that scans that address.
pub proof fn law_address_is_its_own_target(ip: IpAddr)
    ensures
        target_outcome(address::ip_text(ip)) == Ok::<_, ErrorView>(
            DiscoveryTargetView {
                requested: address::ip_text(ip),
                scan_address: address::ip_text(ip),
            },
        ),
{
    let t = address::ip_text(ip);
    address::lemma_ip_text_chars(ip);
    address::law_ip_round_trip(ip);
    assert(address::is_address_char(t[0]));
    assert(address::is_address_char(t[t.len() - 1]));
    text::lemma_trimmed_fixed(t);
    if t.contains('/') {
        let i = choose|i: int| 0 <= i < t.len() && t[i] == '/';
        assert(address::is_address_char(t[i]));
    }
}

/// The text of the highest address.
proof fn lemma_limited_broadcast()
    ensures
        ipv4::ipv4_text(Ipv4Addr { bits: 0xffff_ffff }) == limited_broadcast(),
{
    let a = Ipv4Addr { bits: 0xffff_ffff };
    ipv4::lemma_ipv4_text_unfold(a);
    reveal_strlit("255.255.255.255");
    reveal_with_fuel(numeral::text_of, 3);
    assert(numeral::decimal(255) =~= seq!['2', '5', '5']);
    assert(ipv4::ipv4_text(a) =~= limited_broadcast());
}

/// The number that digits denote, or the first fault met from the left.
fn parse_digits(s: &Vec<char>, from: usize) -> (r: Result<u8, NumberFault>)
    requires
        from <= s.len(),
    ensures
        r is Ok == digits_outcome(s@.skip(from as int)) is Ok,
        r matches Ok(v) ==> digits_outcome(s@.skip(from as int)) == Ok::<nat, NumberFault>(
            v as nat,
        ),
        r matches Err(f) ==> digits_outcome(s@.skip(from as int)) == Err::<nat, _>(f),
{
    let ghost digits = s@.skip(from as int);
    let mut v: u32 = 0;
    let mut i: usize = from;
    proof {
        assert(digits.take(0) =~= Seq::<char>::empty());
    }
    while i < s.len()
        invariant
            from <= i <= s.len(),
            digits == s@.skip(from as int),
            v <= 255,
            digits_outcome(digits.take(i - from)) == Ok::<nat, NumberFault>(v as nat),
        decreases s.len() - i,
    {
        proof {
            let p = digits.take(i - from + 1);
            assert(p.drop_last() =~= digits.take(i - from));
            assert(p.last() == s@[i as int]);
        }
        match numeral::digit_of(s[i], 10) {
            None => {
                proof {
                    lemma_fault_stays(digits, i - from + 1);
                }
                return Err(NumberFault::InvalidDigit);
            },
            Some(d) => {
                if v * 10 + d as u32 > 255 {
                    proof {
                        lemma_fault_stays(digits, i - from + 1);
                    }
                    return Err(NumberFault::Overflow);
                }
                v = v * 10 + d as u32;
            },
        }
        i += 1;
    }
    proof {
        assert(digits.take(digits.len() as int) =~= digits);
    }
    Ok(v as u8)
}

/// A fault in the first digits is the fault of the whole.
proof fn lemma_fault_stays(s: Seq<char>, n: int)
    requires
        0 <= n <= s.len(),
        digits_outcome(s.take(n)) is Err,
    ensures
        digits_outcome(s) == digits_outcome(s.take(n)),
    decreases s.len() - n,
{
    if n == s.len() {
        assert(s.take(n) =~= s);
    } else {
        assert(s.take(n + 1).drop_last() =~= s.take(n));
        lemma_fault_stays(s, n + 1);
    }
}

/// The number from 0 to 255 that the characters denote.
fn parse_number(s: &Vec<char>) -> (r: Result<u8, NumberFault>)
    ensures
        r is Ok == number_outcome(s@) is Ok,
        r matches Ok(v) ==> number_outcome(s@) == Ok::<nat, NumberFault>(v as nat),
        r matches Err(f) ==> number_outcome(s@) == Err::<nat, _>(f),
{
    if s.len() == 0 {
        return Err(NumberFault::Empty);
    }
    if s[0] == '+' {
        if s.len() == 1 {
            return Err(NumberFault::InvalidDigit);
        }
        proof {
            assert(s@.skip(1) =~= s@.drop_first());
        }
        parse_digits(s, 1)
    } else {
        proof {
            assert(s@.skip(0) =~= s@);
        }
        parse_digits(s, 0)
    }
}

/// Where `c` first occurs from `from` on.
fn find_char(s: &Vec<char>, c: char, from: usize) -> (r: Option<usize>)
    requires
        from <= s.len(),
    ensures
        r matches Some(i) ==> from <= i < s.len() && s@[i as int] == c && forall|j: int|
            from <= j < i ==> s@[j] != c,
        r is None ==> forall|j: int| from <= j < s.len() ==> s@[j] != c,
{
    let mut i: usize = from;
    while i < s.len()
        invariant
            from <= i <= s.len(),
            forall|j: int| from <= j < i ==> s@[j] != c,
        decreases s.len() - i,
    {
        if s[i] == c {
            return Some(i);
        }
        i += 1;
    }
    None
}

/// The target that a text stands for.
pub fn normalise_discovery_target(target: &str) -> (r: Result<DiscoveryTarget, Error>)
    ensures
        error::outcome(r) == target_outcome(target@),
{
    let trimmed = target.trim();
    let chars = text::chars_of(trimmed);
    let ghost t = text::trimmed(target@);
    if chars.len() == 0 {
        return Err(Error::EmptyTarget);
    }
    match find_char(&chars, '/', 0) {
        Some(slash) => {
            proof {
                lemma_first_at(t, '/', slash as int);
                assert(t.skip(slash + 1) =~= t.subrange(slash + 1, t.len() as int));
                assert(t.take(slash as int) =~= t.subrange(0, slash as int));
            }
            if let Some(second) = find_char(&chars, '/', slash + 1) {
                proof {
                    assert(t.skip(slash + 1)[second - slash - 1] == '/');
                }
                return Err(Error::InvalidCidrTarget { target: trimmed.to_owned() });
            }
            proof {
                let rest = t.skip(slash + 1);
                assert forall|j: int| 0 <= j < rest.len() implies rest[j] != '/' by {
                    assert(rest[j] == t[slash + 1 + j]);
                }
            }
            let ip = match ipv4::parse_ipv4_chars(&text::slice_of(&chars, 0, slash)) {
                Some(ip) => ip,
                None => {
                    return Err(Error::InvalidCidrAddress { target: trimmed.to_owned() });
                },
            };
            let prefix = match parse_number(&text::slice_of(&chars, slash + 1, chars.len())) {
                Ok(p) => p,
                Err(fault) => {
                    return Err(Error::InvalidCidrPrefix { target: trimmed.to_owned(), fault });
                },
            };
            if prefix > 32 {
                return Err(Error::CidrPrefixTooLong { target: trimmed.to_owned() });
            }
            Ok(
                DiscoveryTarget {
                    requested: trimmed.to_owned(),
                    scan_address: subnet::ipv4_broadcast_address(ip, prefix).to_string(),
                },
            )
        },
        None => match address::parse_ip_chars(&chars) {
            Some(ip) => Ok(
                DiscoveryTarget { requested: trimmed.to_owned(), scan_address: ip.to_string() },
            ),
            None => Err(Error::InvalidTarget { target: trimmed.to_owned() }),
        },
    }
}

/// Appends the targets that the texts stand for, up to the first that stands for none. The targets
/// that are there already stand for the texts `before`.
#[verifier::spinoff_prover]
#[verifier::rlimit(60)]
fn push_targets(
    found: &mut Vec<DiscoveryTarget>,
    texts: &[String],
    Ghost(before): Ghost<Seq<Seq<char>>>,
) -> (r: Result<(), Error>)
    requires
        all_outcomes(before) == Ok::<_, ErrorView>(target_views(old(found)@)),
    ensures
        match r {
            Ok(()) => all_outcomes(before + texts_of(texts@)) == Ok::<_, ErrorView>(
                target_views(final(found)@),
            ),
            Err(e) => all_outcomes(before + texts_of(texts@)) == Err::<
                Seq<DiscoveryTargetView>,
                _,
            >(e@),
        },
{
    let ghost all = texts_of(texts@);
    let mut i: usize = 0;
    proof {
        assert(before + all.take(0) =~= before);
    }
    while i < texts.len()
        invariant
            i <= texts.len(),
            all == texts_of(texts@),
            all_outcomes(before + all.take(i as int)) == Ok::<_, ErrorView>(target_views(found@)),
        decreases texts.len() - i,
    {
        let ghost had = found@;
        proof {
            let next = before + all.take(i + 1);
            assert(next.drop_last() =~= before + all.take(i as int));
            assert(next.last() == texts@[i as int]@);
        }
        match normalise_discovery_target(&texts[i]) {
            Ok(t) => {
                found.push(t);
                proof {
                    assert(target_views(found@) =~= target_views(had).push(t@));
                }
            },
            Err(e) => {
                proof {
                    lemma_first_error_stays(before, all, i + 1);
                }
                return Err(e);
            },
        }
        i += 1;
    }
    proof {
        assert(all.take(all.len() as int) =~= all);
    }
    Ok(())
}

/// An error among the first texts is the error of the whole.
proof fn lemma_first_error_stays(before: Seq<Seq<char>>, s: Seq<Seq<char>>, n: int)
    requires
        0 <= n <= s.len(),
        all_outcomes(before + s.take(n)) is Err,
    ensures
        all_outcomes(before + s) == all_outcomes(before + s.take(n)),
    decreases s.len() - n,
{
    if n == s.len() {
        assert(s.take(n) =~= s);
    } else {
        assert((before + s.take(n + 1)).drop_last() =~= before + s.take(n));
        lemma_first_error_stays(before, s, n + 1);
    }
}

/// The targets asked for, or else the limited broadcast address.
pub fn discovery_scan_targets(positional_targets: &[String], flag_targets: &[String]) -> (r: Result<
    Vec<DiscoveryTarget>,
    Error,
>)
    ensures
        targets_outcome(r) == scan_outcome(
            texts_of(positional_targets@),
            texts_of(flag_targets@),
            Seq::empty(),
        ),
{
    let none: Vec<DiscoveryTarget> = Vec::new();
    proof {
        assert(target_views(none@) =~= Seq::<DiscoveryTargetView>::empty());
    }
    discovery_scan_targets_with_auto(positional_targets, flag_targets, none)
}

/// The targets asked for, or else the automatic ones, or else the limited broadcast address.
pub fn discovery_scan_targets_with_auto(
    positional_targets: &[String],
    flag_targets: &[String],
    auto_targets: Vec<DiscoveryTarget>,
) -> (r: Result<Vec<DiscoveryTarget>, Error>)
    ensures
        targets_outcome(r) == scan_outcome(
            texts_of(positional_targets@),
            texts_of(flag_targets@),
            target_views(auto_targets@),
        ),
        positional_targets@.len() == 0 && flag_targets@.len() == 0 && auto_targets@.len() > 0 ==> (
        r matches Ok(ts) && ts@ == auto_targets@),
        positional_targets@.len() + flag_targets@.len() > 0 ==> (r matches Ok(ts) ==> ts@.len()
            == positional_targets@.len() + flag_targets@.len()),
{
    proof {
        if positional_targets@.len() + flag_targets@.len() > 0 {
            law_asked_targets_are_all_scanned(
                texts_of(positional_targets@),
                texts_of(flag_targets@),
                target_views(auto_targets@),
            );
        }
    }
    if positional_targets.len() == 0 && flag_targets.len() == 0 {
        if auto_targets.len() == 0 {
            proof {
                lemma_limited_broadcast();
                law_address_is_its_own_target(IpAddr::V4(Ipv4Addr { bits: 0xffff_ffff }));
            }
            return match normalise_discovery_target("255.255.255.255") {
                Ok(t) => {
                    let mut only: Vec<DiscoveryTarget> = Vec::new();
                    only.push(t);
                    proof {
                        assert(target_views(only@) =~= seq![t@]);
                    }
                    Ok(only)
                },
                Err(e) => Err(e),
            };
        }
        return Ok(auto_targets);
    }
    let mut found: Vec<DiscoveryTarget> = Vec::new();
    let ghost none = Seq::<Seq<char>>::empty();
    let ghost positional = texts_of(positional_targets@);
    let ghost flags = texts_of(flag_targets@);
    proof {
        assert(target_views(found@) =~= Seq::<DiscoveryTargetView>::empty());
        assert(none + positional =~= positional);
        assert(all_outcomes(none) == Ok::<_, ErrorView>(target_views(found@)));
    }
    match push_targets(&mut found, positional_targets, Ghost(none)) {
        Ok(()) => {},
        Err(e) => {
            proof {
                assert((positional + flags).take(positional.len() as int) =~= positional);
                assert(none + (positional + flags) =~= positional + flags);
                assert(none + (positional + flags).take(positional.len() as int) =~= positional);
                lemma_first_error_stays(none, positional + flags, positional.len() as int);
            }
            return Err(e);
        },
    }
    match push_targets(&mut found, flag_targets, Ghost(positional)) {
        Ok(()) => Ok(found),
        Err(e) => Err(e),
    }
}

/// Whether the automatic targets are wanted: only where none is asked for.
pub fn wants_automatic_targets(positional_targets: &[String], flag_targets: &[String]) -> (r: bool)
    ensures
        r == (positional_targets@.len() == 0 && flag_targets@.len() == 0),
{
    positional_targets.len() == 0 && flag_targets.len() == 0
}

// Laws

/// White space around a target is of no account.
pub proof fn law_white_space_is_ignored(s: Seq<char>)
    ensures
        target_outcome(text::trimmed(s)) == target_outcome(s),
{
    text::lemma_trimmed_ends(s);
    text::lemma_trimmed_fixed(text::trimmed(s));
}

/// What a target scans is itself a target, and one that scans itself.
pub proof fn law_scan_address_is_its_own_target(s: Seq<char>)
    requires
        target_outcome(s) is Ok,
    ensures
        ({
            let scan = target_outcome(s)->Ok_0.scan_address;
            target_outcome(scan) == Ok::<_, ErrorView>(
                DiscoveryTargetView { requested: scan, scan_address: scan },
            )
        }),
{
    let t = text::trimmed(s);
    if t.contains('/') {
        let ip = ipv4::ipv4_value(t.take(first_at(t, '/'))).unwrap();
        let p = number_outcome(t.skip(first_at(t, '/') + 1))->Ok_0;
        law_address_is_its_own_target(IpAddr::V4(subnet::broadcast_address(ip, p)));
    } else {
        law_address_is_its_own_target(address::ip_value(t).unwrap());
    }
}

/// An IPv4 address, a slash and a prefix of at most 32 is a target that scans the broadcast address
/// of the subnet.
pub proof fn law_cidr_scans_broadcast_address(ip: Ipv4Addr, prefix: nat)
    requires
        prefix <= 32,
    ensures
        ({
            let asked = ipv4::ipv4_text(ip).push('/') + numeral::decimal(prefix);
            target_outcome(asked) == Ok::<_, ErrorView>(
                DiscoveryTargetView {
                    requested: asked,
                    scan_address: ipv4::ipv4_text(subnet::broadcast_address(ip, prefix)),
                },
            )
        }),
{
    let front = ipv4::ipv4_text(ip);
    let back = numeral::decimal(prefix);
    let asked = front.push('/') + back;
    ipv4::lemma_ipv4_text_chars(ip);
    ipv4::lemma_ipv4_round_trip(ip);
    numeral::lemma_text_round_trip(prefix, 10);
    assert(front[0] == '.' || '0' <= front[0] && front[0] <= '9');
    assert(asked[0] == front[0]);
    assert(asked.last() == back[back.len() - 1]);
    assert forall|i: int| 0 <= i < back.len() implies '0' <= #[trigger] back[i] && back[i] <= '9' by {
        numeral::lemma_text_chars(prefix, 10, i);
    }
    text::lemma_trimmed_fixed(asked);
    let slash = front.len() as int;
    assert forall|j: int| 0 <= j < slash implies asked[j] != '/' by {
        assert(asked[j] == front[j]);
    }
    assert(asked[slash] == '/');
    lemma_first_at(asked, '/', slash);
    assert(asked.take(slash) =~= front);
    assert(asked.skip(slash + 1) =~= back);
    lemma_digits_outcome(back);
}

/// Reading digits from the left finds the first fault, or the value of them all.
proof fn lemma_digits_outcome(s: Seq<char>)
    ensures
        digits_outcome(s) is Ok <==> numeral::all_digits(s, 10) && numeral::value_of(s, 10) <= 255,
        digits_outcome(s) is Ok ==> digits_outcome(s) == Ok::<_, NumberFault>(
            numeral::value_of(s, 10),
        ),
    decreases s.len(),
{
    if s.len() > 0 {
        let before = s.drop_last();
        lemma_digits_outcome(before);
        if numeral::all_digits(s, 10) {
            assert(numeral::digit_value(s[s.len() - 1], 10) is Some);
            assert forall|i: int| 0 <= i < before.len() implies numeral::digit_value(
                #[trigger] before[i],
                10,
            ) is Some by {
                assert(numeral::digit_value(s[i], 10) is Some);
            }
        }
        if digits_outcome(before) is Ok && numeral::digit_value(s.last(), 10) is Some {
            assert forall|i: int| 0 <= i < s.len() implies numeral::digit_value(
                #[trigger] s[i],
                10,
            ) is Some by {
                if i < before.len() {
                    assert(numeral::digit_value(before[i], 10) is Some);
                }
            }
        }
    }
}

/// A prefix is read as a number exactly where it consists of at least one digit, after a plus sign
/// or without one, and is worth at most 255.
pub proof fn law_prefix_numbers(s: Seq<char>)
    ensures
        ({
            let digits = if s.len() > 0 && s[0] == '+' {
                s.drop_first()
            } else {
                s
            };
            &&& number_outcome(s) is Ok <==> digits.len() > 0 && numeral::all_digits(digits, 10)
                && numeral::value_of(digits, 10) <= 255
            &&& number_outcome(s) is Ok ==> number_outcome(s) == Ok::<_, NumberFault>(
                numeral::value_of(digits, 10),
            )
        }),
{
    lemma_digits_outcome(s);
    if s.len() > 0 {
        lemma_digits_outcome(s.drop_first());
    }
}

/// Where every text stands for a target there is one target for each, in order.
pub proof fn law_one_target_for_each_text(texts: Seq<Seq<char>>)
    ensures
        all_outcomes(texts) is Ok <==> forall|i: int|
            0 <= i < texts.len() ==> target_outcome(#[trigger] texts[i]) is Ok,
        all_outcomes(texts) matches Ok(ts) ==> ts.len() == texts.len() && forall|i: int|
            0 <= i < texts.len() ==> target_outcome(#[trigger] texts[i]) == Ok::<_, ErrorView>(
                ts[i],
            ),
    decreases texts.len(),
{
    if texts.len() > 0 {
        let before = texts.drop_last();
        law_one_target_for_each_text(before);
        assert forall|i: int| 0 <= i < before.len() implies before[i] == texts[i] by {}
        assert(texts.last() == texts[texts.len() - 1]);
        if forall|i: int| 0 <= i < texts.len() ==> target_outcome(#[trigger] texts[i]) is Ok {
            assert forall|i: int| 0 <= i < before.len() implies target_outcome(
                #[trigger] before[i],
            ) is Ok by {
                assert(target_outcome(texts[i]) is Ok);
            }
        }
        if let Ok(ts) = all_outcomes(texts) {
            assert forall|i: int| 0 <= i < texts.len() implies target_outcome(#[trigger] texts[i])
                == Ok::<_, ErrorView>(ts[i]) by {
                if i < before.len() {
                    assert(target_outcome(before[i]) is Ok);
                }
            }
        }
    }
}

/// The error of a list of texts is that of the first one that stands for no target.
pub proof fn law_first_error_wins(texts: Seq<Seq<char>>, n: int)
    requires
        0 <= n < texts.len(),
        target_outcome(texts[n]) is Err,
        forall|i: int| 0 <= i < n ==> target_outcome(#[trigger] texts[i]) is Ok,
    ensures
        all_outcomes(texts) is Err,
        all_outcomes(texts)->Err_0 == target_outcome(texts[n])->Err_0,
{
    let front = texts.take(n);
    law_one_target_for_each_text(front);
    assert forall|i: int| 0 <= i < front.len() implies target_outcome(#[trigger] front[i]) is Ok by {
        assert(target_outcome(texts[i]) is Ok);
    }
    assert(texts.take(n + 1).drop_last() =~= front);
    assert(texts.take(n + 1).last() == texts[n]);
    let none = Seq::<Seq<char>>::empty();
    assert(none + texts =~= texts);
    assert(none + texts.take(n + 1) =~= texts.take(n + 1));
    lemma_first_error_stays(none, texts, n + 1);
}

/// Where any target is asked for, the automatic ones are of no account.
pub proof fn law_asking_replaces_automatic_targets(
    positional: Seq<Seq<char>>,
    flags: Seq<Seq<char>>,
    auto: Seq<DiscoveryTargetView>,
)
    requires
        positional.len() > 0 || flags.len() > 0,
    ensures
        scan_outcome(positional, flags, auto) == all_outcomes(positional + flags),
{
}

/// A target of white space only is refused as empty.
pub proof fn law_empty_targets(s: Seq<char>)
    ensures
        text::trimmed(s).len() == 0 ==> target_outcome(s) == Err::<DiscoveryTargetView, _>(
            ErrorView::EmptyTarget,
        ),
        text::trimmed(s).len() > 0 ==> target_outcome(s) != Err::<DiscoveryTargetView, _>(
            ErrorView::EmptyTarget,
        ),
{
}

/// A target without a slash scans the IP address that it denotes, and is refused where it denotes
/// none.
pub proof fn law_targets_without_slash(t: Seq<char>)
    requires
        t.len() > 0,
        text::trimmed(t) == t,
        forall|i: int| 0 <= i < t.len() ==> t[i] != '/',
    ensures
        address::ip_value(t) matches Some(ip) ==> target_outcome(t) == Ok::<_, ErrorView>(
            DiscoveryTargetView { requested: t, scan_address: address::ip_text(ip) },
        ),
        address::ip_value(t) is None ==> target_outcome(t) == Err::<DiscoveryTargetView, _>(
            ErrorView::InvalidTarget { target: t },
        ),
{
}

/// What stands before the first slash of a target must be an IPv4 address, and what stands after it
/// a number up to 32 without another slash; the target then scans the last address of the subnet.
/// Otherwise the first of these conditions that fails is the error.
pub proof fn law_targets_with_slash(front: Seq<char>, back: Seq<char>)
    requires
        text::trimmed(front + seq!['/'] + back) == front + seq!['/'] + back,
        forall|i: int| 0 <= i < front.len() ==> front[i] != '/',
    ensures
        ({
            let t = front + seq!['/'] + back;
            let out = target_outcome(t);
            if exists|i: int| 0 <= i < back.len() && back[i] == '/' {
                out == Err::<DiscoveryTargetView, _>(ErrorView::InvalidCidrTarget { target: t })
            } else if ipv4::ipv4_value(front) is None {
                out == Err::<DiscoveryTargetView, _>(ErrorView::InvalidCidrAddress { target: t })
            } else {
                match number_outcome(back) {
                    Err(fault) => out == Err::<DiscoveryTargetView, _>(
                        ErrorView::InvalidCidrPrefix { target: t, fault },
                    ),
                    Ok(p) => if p > 32 {
                        out == Err::<DiscoveryTargetView, _>(
                            ErrorView::CidrPrefixTooLong { target: t },
                        )
                    } else {
                        out == Ok::<_, ErrorView>(
                            DiscoveryTargetView {
                                requested: t,
                                scan_address: ipv4::ipv4_text(
                                    subnet::broadcast_address(
                                        ipv4::ipv4_value(front).unwrap(),
                                        p,
                                    ),
                                ),
                            },
                        )
                    },
                }
            }
        }),
{
    let t = front + seq!['/'] + back;
    let slash = front.len() as int;
    assert(t[slash] == '/');
    assert forall|j: int| 0 <= j < slash implies t[j] != '/' by {
        assert(t[j] == front[j]);
    }
    lemma_first_at(t, '/', slash);
    assert(t.take(slash) =~= front);
    assert(t.skip(slash + 1) =~= back);
}

/// A subnet's target scans the last address of the subnet: the one at or after the address given
/// that ends its block.
pub proof fn law_subnet_targets_scan_last_addresses(
    front: Seq<char>,
    ip: Ipv4Addr,
    back: Seq<char>,
    prefix: nat,
    last: Ipv4Addr,
)
    requires
        ipv4::ipv4_value(front) == Some(ip),
        number_outcome(back) == Ok::<_, NumberFault>(prefix),
        prefix <= 32,
        last.bits >= ip.bits,
        (last.bits + 1) % (vstd::arithmetic::power2::pow2((32 - prefix) as nat) as int) == 0,
        last.bits - ip.bits < vstd::arithmetic::power2::pow2((32 - prefix) as nat),
    ensures
        target_outcome(front + seq!['/'] + back) == Ok::<_, ErrorView>(
            DiscoveryTargetView {
                requested: front + seq!['/'] + back,
                scan_address: ipv4::ipv4_text(last),
            },
        ),
{
    let t = front + seq!['/'] + back;
    ipv4::law_ipv4_reading(front, ip);
    ipv4::lemma_ipv4_text_chars(ip);
    assert forall|i: int| 0 <= i < front.len() implies front[i] != '/' by {
        assert(front[i] == ipv4::ipv4_text(ip)[i]);
    }
    law_prefix_numbers(back);
    let digits = if back[0] == '+' {
        back.drop_first()
    } else {
        back
    };
    assert forall|i: int| 0 <= i < back.len() implies back[i] == '+' || ('0' <= back[i] && back[i]
        <= '9') by {
        if i > 0 || back[0] != '+' {
            let k = if back[0] == '+' {
                i - 1
            } else {
                i
            };
            assert(digits[k] == back[i]);
            assert(numeral::digit_value(digits[k], 10) is Some);
        }
    }
    assert(t[0] == front[0]);
    assert(front[0] == ipv4::ipv4_text(ip)[0]);
    assert(t.last() == back[back.len() - 1]);
    text::lemma_trimmed_fixed(t);
    subnet::law_broadcast_address_is_last(ip, prefix, last);
    law_targets_with_slash(front, back);
}

/// Of a prefix that is no number the fault is the first that is met from the left: nothing at all, a
/// character that is no digit, or a digit that makes the number greater than 255.
pub proof fn law_prefix_faults(s: Seq<char>, n: int)
    ensures
        s.len() == 0 ==> number_outcome(s) == Err::<nat, _>(NumberFault::Empty),
        s == seq!['+'] ==> number_outcome(s) == Err::<nat, _>(NumberFault::InvalidDigit),
        ({
            let digits = if s.len() > 0 && s[0] == '+' {
                s.drop_first()
            } else {
                s
            };
            let read = digits.take(n);
            0 <= n < digits.len() && numeral::all_digits(read, 10) && numeral::value_of(read, 10)
                <= 255 ==> {
                &&& numeral::digit_value(digits[n], 10) is None ==> number_outcome(s) == Err::<
                    nat,
                    _,
                >(NumberFault::InvalidDigit)
                &&& numeral::digit_value(digits[n], 10) matches Some(d) ==> (numeral::value_of(
                    read,
                    10,
                ) * 10 + d > 255 ==> number_outcome(s) == Err::<nat, _>(NumberFault::Overflow))
            }
        }),
{
    let digits = if s.len() > 0 && s[0] == '+' {
        s.drop_first()
    } else {
        s
    };
    let read = digits.take(n);
    if 0 <= n < digits.len() && numeral::all_digits(read, 10) && numeral::value_of(read, 10) <= 255 {
        lemma_digits_outcome(read);
        let next = digits.take(n + 1);
        assert(next.drop_last() =~= read);
        assert(next.last() == digits[n]);
        if digits_outcome(next) is Err {
            lemma_fault_stays(digits, n + 1);
        }
    }
}

/// Where nothing is asked for and there are automatic targets, these are scanned: all of them, in
/// order.
pub proof fn law_automatic_targets_are_all_scanned(auto: Seq<DiscoveryTargetView>)
    requires
        auto.len() > 0,
    ensures
        scan_outcome(Seq::empty(), Seq::empty(), auto) matches Ok(ts) && ts.len() == auto.len()
            && forall|i: int| 0 <= i < auto.len() ==> #[trigger] ts[i] == auto[i],
{
}

/// Where nothing is asked for and there are no automatic targets, `255.255.255.255` is scanned.
pub proof fn law_limited_broadcast_is_the_last_resort()
    ensures
        scan_outcome(Seq::empty(), Seq::empty(), Seq::empty()) == Ok::<_, ErrorView>(
            seq![
                DiscoveryTargetView {
                    requested: "255.255.255.255"@,
                    scan_address: "255.255.255.255"@,
                },
            ],
        ),
{
}

/// Where targets are asked for, each text stands for one target, those given by position before
/// those given by flag; the scan is refused exactly where one of them stands for none.
pub proof fn law_asked_targets_are_all_scanned(
    positional: Seq<Seq<char>>,
    flags: Seq<Seq<char>>,
    auto: Seq<DiscoveryTargetView>,
)
    requires
        positional.len() + flags.len() > 0,
    ensures
        scan_outcome(positional, flags, auto) is Ok <==> (forall|i: int|
            0 <= i < positional.len() ==> target_outcome(#[trigger] positional[i]) is Ok) && (
        forall|i: int| 0 <= i < flags.len() ==> target_outcome(#[trigger] flags[i]) is Ok),
        scan_outcome(positional, flags, auto) matches Ok(ts) ==> {
            &&& ts.len() == positional.len() + flags.len()
            &&& forall|i: int|
                0 <= i < positional.len() ==> target_outcome(#[trigger] positional[i]) == Ok::<
                    _,
                    ErrorView,
                >(ts[i])
            &&& forall|i: int|
                0 <= i < flags.len() ==> target_outcome(#[trigger] flags[i]) == Ok::<_, ErrorView>(
                    ts[positional.len() + i],
                )
        },
{
    let all = positional + flags;
    law_one_target_for_each_text(all);
    assert forall|i: int| 0 <= i < positional.len() implies all[i] == #[trigger] positional[i] by {}
    assert forall|i: int| 0 <= i < flags.len() implies all[positional.len() + i]
        == #[trigger] flags[i] by {}
    if (forall|i: int| 0 <= i < positional.len() ==> target_outcome(#[trigger] positional[i]) is Ok)
        && (forall|i: int| 0 <= i < flags.len() ==> target_outcome(#[trigger] flags[i]) is Ok) {
        assert forall|i: int| 0 <= i < all.len() implies target_outcome(#[trigger] all[i]) is Ok by {
            if i < positional.len() {
                assert(target_outcome(positional[i]) is Ok);
            } else {
                assert(target_outcome(flags[i - positional.len()]) is Ok);
            }
        }
    }
}

/// The view of a target shows its texts as they are, and that of a list each target in turn.
pub proof fn law_target_shows_its_texts(ts: Seq<DiscoveryTarget>)
    ensures
        target_views(ts).len() == ts.len(),
        forall|i: int|
            0 <= i < ts.len() ==> (#[trigger] target_views(ts)[i]).requested == ts[i].requested@
                && target_views(ts)[i].scan_address == ts[i].scan_address@,
{
}

} // verus!
