//! IPv4 subnets and the local networks that a scan can reach.
use vstd::prelude::*;

use crate::error::ErrorView;
use crate::ipv4;
use crate::ipv4::Ipv4Addr;
use crate::numeral;
use crate::targets;
use crate::targets::{DiscoveryTarget, DiscoveryTargetView};
use crate::text;

verus! {

/// How many addresses a subnet with a prefix of that length has.
pub open spec fn block_size(prefix: nat) -> nat {
    vstd::arithmetic::power2::pow2((32 - prefix) as nat)
}

/// The first address of the subnet that holds the address.
pub open spec fn network_address(a: Ipv4Addr, prefix: nat) -> Ipv4Addr {
    Ipv4Addr { bits: (a.bits - a.bits as nat % block_size(prefix)) as u32 }
}

/// The last address of the subnet that holds the address.
pub open spec fn broadcast_address(a: Ipv4Addr, prefix: nat) -> Ipv4Addr {
    Ipv4Addr { bits: (a.bits - a.bits as nat % block_size(prefix) + block_size(prefix) - 1) as u32 }
}

/// Whether a netmask is that of subnets with a prefix of that length: its bits are set down to the
/// size of such a subnet.
pub open spec fn is_netmask(netmask: Ipv4Addr, prefix: nat) -> bool {
    prefix <= 32 && netmask.bits == 0x1_0000_0000 - block_size(prefix)
}

/// The length of the prefix that a netmask stands for, where it stands for one.
pub open spec fn netmask_prefix(netmask: Ipv4Addr) -> Option<nat> {
    if exists|p: nat| is_netmask(netmask, p) {
        Some(choose|p: nat| is_netmask(netmask, p))
    } else {
        None
    }
}

/// Whether the address is one of `127.0.0.0/8`.
pub open spec fn is_loopback(a: Ipv4Addr) -> bool {
    ipv4::octet(a, 0) == 127
}

/// Whether the address is `0.0.0.0`.
pub open spec fn is_unspecified(a: Ipv4Addr) -> bool {
    a.bits == 0
}

/// Whether the address is one of `169.254.0.0/16`.
pub open spec fn is_link_local(a: Ipv4Addr) -> bool {
    ipv4::octet(a, 0) == 169 && ipv4::octet(a, 1) == 254
}

/// An IPv4 network that a local interface is in.
#[derive(Debug, Clone, PartialEq, Eq)]
pub struct LocalIpv4Network {
    pub name: String,
    pub ip: Ipv4Addr,
    pub netmask: Ipv4Addr,
}

/// A local network with its interface's name as a sequence of characters.
pub struct LocalIpv4NetworkView {
    pub name: Seq<char>,
    pub ip: Ipv4Addr,
    pub netmask: Ipv4Addr,
}

impl View for LocalIpv4Network {
    type V = LocalIpv4NetworkView;

    open spec fn view(&self) -> LocalIpv4NetworkView {
        LocalIpv4NetworkView { name: self.name@, ip: self.ip, netmask: self.netmask }
    }
}

/// The views of the networks.
pub open spec fn network_views(networks: Seq<LocalIpv4Network>) -> Seq<LocalIpv4NetworkView> {
    networks.map_values(|n: LocalIpv4Network| n@)
}

/// Whether a network has a broadcast address worth scanning: a proper netmask, room for other
/// hosts, and an address that other hosts can reach.
pub open spec fn is_scannable(n: LocalIpv4NetworkView) -> bool {
    &&& netmask_prefix(n.netmask) matches Some(p)
    &&& p < 31
    &&& !is_loopback(n.ip)
    &&& !is_unspecified(n.ip)
    &&& !is_link_local(n.ip)
}

/// The target for a network: its broadcast address, asked for as interface, network and prefix.
pub open spec fn network_target(n: LocalIpv4NetworkView) -> DiscoveryTargetView {
    let prefix = netmask_prefix(n.netmask).unwrap();
    DiscoveryTargetView {
        requested: n.name.push(':') + ipv4::ipv4_text(network_address(n.ip, prefix)).push('/')
            + numeral::decimal(prefix),
        scan_address: ipv4::ipv4_text(broadcast_address(n.ip, prefix)),
    }
}

/// Whether one of the targets scans the address.
pub open spec fn scans(ts: Seq<DiscoveryTargetView>, address: Seq<char>) -> bool {
    exists|i: int| 0 <= i < ts.len() && (#[trigger] ts[i]).scan_address == address
}

/// The targets for the networks in order: one for each that is worth scanning, unless an earlier
/// one scans the same address.
pub open spec fn network_targets(networks: Seq<LocalIpv4NetworkView>) -> Seq<DiscoveryTargetView>
    decreases networks.len(),
{
    if networks.len() == 0 {
        Seq::empty()
    } else {
        let before = network_targets(networks.drop_last());
        let n = networks.last();
        if is_scannable(n) && !scans(before, network_target(n).scan_address) {
            before.push(network_target(n))
        } else {
            before
        }
    }
}

/// The length of a prefix is determined by its netmask.
pub proof fn lemma_netmask_prefix(netmask: Ipv4Addr, p: nat)
    requires
        is_netmask(netmask, p),
    ensures
        netmask_prefix(netmask) == Some(p),
{
    let q = netmask_prefix(netmask).unwrap();
    assert(is_netmask(netmask, q));
    if p < q {
        vstd::arithmetic::power2::lemma_pow2_strictly_increases(
            (32 - q) as nat,
            (32 - p) as nat,
        );
    } else if q < p {
        vstd::arithmetic::power2::lemma_pow2_strictly_increases(
            (32 - p) as nat,
            (32 - q) as nat,
        );
    }
}

/// A subnet has from one address up to all of them.
pub proof fn lemma_block_size(prefix: nat)
    requires
        prefix <= 32,
    ensures
        1 <= block_size(prefix) <= 0x1_0000_0000,
        prefix == 0 ==> block_size(prefix) == 0x1_0000_0000,
        prefix == 32 ==> block_size(prefix) == 1,
{
    vstd::arithmetic::power2::lemma_pow2_pos((32 - prefix) as nat);
    vstd::arithmetic::power2::lemma2_to64();
    if prefix > 0 {
        vstd::arithmetic::power2::lemma_pow2_strictly_increases((32 - prefix) as nat, 32);
    }
}

/// Clearing the low bits of a number takes off its remainder.
proof fn lemma_clear_low_bits(bits: u32, k: u64)
    requires
        k <= 32,
    ensures
        ((bits as u64 >> k) << k) == bits - bits as nat % vstd::arithmetic::power2::pow2(k as nat),
        (1u64 << k) == vstd::arithmetic::power2::pow2(k as nat),
{
    let size = vstd::arithmetic::power2::pow2(k as nat);
    let b = bits as u64;
    lemma_block_size((32 - k) as nat);
    assert(block_size((32 - k) as nat) == size);
    vstd::bits::lemma_u64_shr_is_div(b, k);
    let q = b as nat / size;
    assert(b as nat == size * q + b as nat % size && 0 <= q * size <= b) by (nonlinear_arith)
        requires
            size >= 1,
            q == b as nat / size,
    ;
    assert(q * size == size * q) by (nonlinear_arith);
    vstd::bits::lemma_u64_shl_is_mul(b >> k, k);
    assert(1 * size == size);
    vstd::bits::lemma_u64_shl_is_mul(1, k);
}

/// The last address of the subnet that holds the address.
pub fn ipv4_broadcast_address(ip: Ipv4Addr, prefix: u8) -> (r: Ipv4Addr)
    requires
        prefix <= 32,
    ensures
        r == broadcast_address(ip, prefix as nat),
        r.bits >= ip.bits,
        (r.bits + 1) % (vstd::arithmetic::power2::pow2((32 - prefix) as nat) as int) == 0,
        r.bits - ip.bits < vstd::arithmetic::power2::pow2((32 - prefix) as nat),
{
    let host_mask: u32 = if prefix == 32 {
        0
    } else {
        u32::MAX >> prefix
    };
    proof {
        let bits = ip.bits;
        let k: u64 = (32 - prefix) as u64;
        lemma_clear_low_bits(bits, k);
        lemma_block_size(prefix as nat);
        law_broadcast_address_is_last(ip, prefix as nat, ip);
        assert((bits | host_mask) as u64 == ((bits as u64 >> k) << k) + (1u64 << k) - 1)
            by (bit_vector)
            requires
                prefix <= 32,
                k == 32 - prefix,
                host_mask == (if prefix == 32 {
                    0
                } else {
                    0xffff_ffffu32 >> prefix
                }),
        ;
    }
    Ipv4Addr { bits: ip.bits | host_mask }
}

/// The first address of the subnet that holds the address.
fn ipv4_network_address(ip: Ipv4Addr, netmask: Ipv4Addr, prefix: u8) -> (r: Ipv4Addr)
    requires
        is_netmask(netmask, prefix as nat),
    ensures
        r == network_address(ip, prefix as nat),
{
    proof {
        let bits = ip.bits;
        let mask = netmask.bits;
        let k: u64 = (32 - prefix) as u64;
        lemma_clear_low_bits(bits, k);
        lemma_block_size(prefix as nat);
        let size = 1u64 << k;
        assert(mask == 0x1_0000_0000u64 - size);
        assert((bits & mask) as u64 == ((bits as u64 >> k) << k)) by (bit_vector)
            requires
                k <= 32,
                size == 1u64 << k,
                mask == 0x1_0000_0000u64 - size,
        ;
    }
    Ipv4Addr { bits: ip.bits & netmask.bits }
}

/// The length of the prefix that a netmask stands for, where it stands for one.
pub fn ipv4_netmask_prefix(netmask: Ipv4Addr) -> (r: Option<u8>)
    ensures
        r is Some == netmask_prefix(netmask) is Some,
        r matches Some(p) ==> netmask_prefix(netmask) == Some(p as nat) && is_netmask(
            netmask,
            p as nat,
        ) && netmask.bits + vstd::arithmetic::power2::pow2((32 - p) as nat) == 0x1_0000_0000,
        r is None ==> forall|p: nat|
            p <= 32 ==> netmask.bits + #[trigger] vstd::arithmetic::power2::pow2((32 - p) as nat)
                != 0x1_0000_0000,
{
    let mut prefix: u8 = 0;
    let mut size: u64 = 0x1_0000_0000;
    proof {
        lemma_block_size(0);
    }
    while prefix <= 32
        invariant
            prefix <= 33,
            prefix <= 32 ==> size == block_size(prefix as nat),
            size <= 0x1_0000_0000,
            forall|p: nat| p < prefix ==> !is_netmask(netmask, p),
        decreases 33 - prefix,
    {
        if netmask.bits as u64 == 0x1_0000_0000 - size {
            proof {
                lemma_netmask_prefix(netmask, prefix as nat);
            }
            return Some(prefix);
        }
        proof {
            if prefix < 32 {
                vstd::arithmetic::power2::lemma_pow2_unfold((32 - prefix) as nat);
            }
        }
        size = size / 2;
        prefix += 1;
    }
    proof {
        assert forall|p: nat| p <= 32 implies netmask.bits
            + #[trigger] vstd::arithmetic::power2::pow2((32 - p) as nat) != 0x1_0000_0000 by {
            assert(!is_netmask(netmask, p));
        }
    }
    None
}

/// The targets for the local networks, the same address at most once.
pub fn discovery_targets_from_local_ipv4_networks(networks: &[LocalIpv4Network]) -> (r: Vec<
    DiscoveryTarget,
>)
    ensures
        targets::target_views(r@) == network_targets(network_views(networks@)),
{
    let mut found: Vec<DiscoveryTarget> = Vec::new();
    let ghost all = network_views(networks@);
    let mut i: usize = 0;
    proof {
        assert(targets::target_views(found@) =~= network_targets(all.take(0)));
    }
    while i < networks.len()
        invariant
            i <= networks.len(),
            all == network_views(networks@),
            targets::target_views(found@) == network_targets(all.take(i as int)),
        decreases networks.len() - i,
    {
        let network = &networks[i];
        let ghost n = all[i as int];
        proof {
            assert(n == network@);
            assert(all.take(i + 1).drop_last() =~= all.take(i as int));
            assert(all.take(i + 1).last() == n);
        }
        i += 1;
        if let Some(prefix) = ipv4_netmask_prefix(network.netmask) {
            let first_octet = network.ip.bits / 0x1000000;
            let second_octet = network.ip.bits / 0x10000 % 0x100;
            if prefix >= 31 || first_octet == 127 || network.ip.bits == 0 || (first_octet == 169
                && second_octet == 254) {
                continue ;
            }
            let scan_address = ipv4_broadcast_address(network.ip, prefix).to_string();
            if is_scanned(&found, &scan_address) {
                continue ;
            }
            let mut requested = network.name.clone();
            requested.push(':');
            ipv4_network_address(network.ip, network.netmask, prefix).push_text(&mut requested);
            requested.push('/');
            numeral::push_number(&mut requested, prefix as u128, 10);
            let ghost before = found@;
            let target = DiscoveryTarget { requested, scan_address };
            proof {
                assert(target@.requested =~= network_target(n).requested);
            }
            found.push(target);
            proof {
                assert(targets::target_views(found@) =~= targets::target_views(before).push(
                    target@,
                ));
            }
        }
    }
    proof {
        assert(all.take(all.len() as int) =~= all);
    }
    found
}

/// What a local interface has for an address.
#[derive(Debug, Clone, Copy, PartialEq, Eq)]
pub enum LocalAddress {
    V4 { ip: Ipv4Addr, netmask: Ipv4Addr },
    V6,
}

/// A local network interface.
#[derive(Debug, Clone, PartialEq, Eq)]
pub struct LocalInterface {
    pub name: String,
    pub address: LocalAddress,
}

/// The IPv4 networks that the interfaces are in, in order.
pub open spec fn ipv4_networks(interfaces: Seq<LocalInterface>) -> Seq<LocalIpv4NetworkView>
    decreases interfaces.len(),
{
    if interfaces.len() == 0 {
        Seq::empty()
    } else {
        let before = ipv4_networks(interfaces.drop_last());
        match interfaces.last().address {
            LocalAddress::V4 { ip, netmask } => before.push(
                LocalIpv4NetworkView { name: interfaces.last().name@, ip, netmask },
            ),
            LocalAddress::V6 => before,
        }
    }
}

/// The IPv4 networks that the interfaces are in.
pub fn local_ipv4_networks(interfaces: &[LocalInterface]) -> (r: Vec<LocalIpv4Network>)
    ensures
        network_views(r@) == ipv4_networks(interfaces@),
{
    let mut networks: Vec<LocalIpv4Network> = Vec::new();
    let mut i: usize = 0;
    proof {
        assert(network_views(networks@) =~= ipv4_networks(interfaces@.take(0)));
    }
    while i < interfaces.len()
        invariant
            i <= interfaces.len(),
            network_views(networks@) == ipv4_networks(interfaces@.take(i as int)),
        decreases interfaces.len() - i,
    {
        let interface = &interfaces[i];
        let ghost before = networks@;
        proof {
            let p = interfaces@.take(i + 1);
            assert(p.drop_last() =~= interfaces@.take(i as int));
            assert(p.last() == interface);
        }
        match interface.address {
            LocalAddress::V4 { ip, netmask } => {
                let network = LocalIpv4Network { name: interface.name.clone(), ip, netmask };
                networks.push(network);
                proof {
                    assert(network_views(networks@) =~= network_views(before).push(network@));
                }
            },
            LocalAddress::V6 => {},
        }
        i += 1;
    }
    proof {
        assert(interfaces@.take(interfaces@.len() as int) =~= interfaces@);
    }
    networks
}

/// The targets of a scan of the networks that the local interfaces are in.
pub fn automatic_discovery_targets(interfaces: &[LocalInterface]) -> (r: Vec<DiscoveryTarget>)
    ensures
        targets::target_views(r@) == network_targets(ipv4_networks(interfaces@)),
{
    discovery_targets_from_local_ipv4_networks(&local_ipv4_networks(interfaces))
}

/// Whether one of the targets scans the address.
fn is_scanned(found: &Vec<DiscoveryTarget>, address: &str) -> (r: bool)
    ensures
        r == scans(targets::target_views(found@), address@),
{
    let ghost views = targets::target_views(found@);
    let mut i: usize = 0;
    while i < found.len()
        invariant
            i <= found.len(),
            views == targets::target_views(found@),
            forall|k: int| 0 <= k < i ==> (#[trigger] views[k]).scan_address != address@,
        decreases found.len() - i,
    {
        if text::same_text(&found[i].scan_address, address) {
            proof {
                assert(views[i as int].scan_address == address@);
            }
            return true;
        }
        i += 1;
    }
    false
}

// Laws

/// A subnet runs from its network address to its broadcast address, with as many addresses as its
/// prefix leaves.
pub proof fn law_subnet_ends(a: Ipv4Addr, prefix: nat)
    requires
        prefix <= 32,
    ensures
        network_address(a, prefix).bits <= a.bits <= broadcast_address(a, prefix).bits,
        broadcast_address(a, prefix).bits - network_address(a, prefix).bits == block_size(prefix)
            - 1,
        network_address(a, prefix).bits as nat % block_size(prefix) == 0,
{
    lemma_block_size(prefix);
    let size = block_size(prefix);
    let k: u64 = (32 - prefix) as u64;
    lemma_clear_low_bits(a.bits, k);
    let bits = a.bits;
    assert((bits as u64 >> k) << k <= 0x1_0000_0000 - (1u64 << k)) by (bit_vector)
        requires
            k <= 32,
    ;
    let low = a.bits as nat % size;
    assert(low < size) by (nonlinear_arith)
        requires
            low == a.bits as nat % size,
            size >= 1,
    ;
    assert((a.bits as nat - low) % (size as int) == 0) by (nonlinear_arith)
        requires
            low == a.bits as nat % size,
            size >= 1,
    ;
}

/// Every address of a subnet has the subnet's broadcast address.
pub proof fn law_subnet_shares_broadcast_address(a: Ipv4Addr, b: Ipv4Addr, prefix: nat)
    requires
        prefix <= 32,
        network_address(a, prefix).bits <= b.bits <= broadcast_address(a, prefix).bits,
    ensures
        network_address(b, prefix) == network_address(a, prefix),
        broadcast_address(b, prefix) == broadcast_address(a, prefix),
{
    law_subnet_ends(a, prefix);
    lemma_block_size(prefix);
    let size = block_size(prefix) as int;
    let first = network_address(a, prefix).bits as int;
    let step = b.bits - first;
    assert((first + step) % size == step) by (nonlinear_arith)
        requires
            first % size == 0,
            0 <= step < size,
    ;
}

/// No address is scanned twice.
pub proof fn law_scan_addresses_differ(networks: Seq<LocalIpv4NetworkView>, i: int, j: int)
    requires
        0 <= i < j < network_targets(networks).len(),
    ensures
        network_targets(networks)[i].scan_address != network_targets(networks)[j].scan_address,
    decreases networks.len(),
{
    if networks.len() > 0 {
        let before = network_targets(networks.drop_last());
        if j < before.len() {
            law_scan_addresses_differ(networks.drop_last(), i, j);
        } else {
            assert(before[i] == network_targets(networks)[i]);
        }
    }
}

/// Every network that is worth scanning has its broadcast address scanned.
pub proof fn law_scannable_networks_are_scanned(networks: Seq<LocalIpv4NetworkView>, i: int)
    requires
        0 <= i < networks.len(),
        is_scannable(networks[i]),
    ensures
        scans(network_targets(networks), network_target(networks[i]).scan_address),
    decreases networks.len(),
{
    let before = network_targets(networks.drop_last());
    let all = network_targets(networks);
    let wanted = network_target(networks[i]).scan_address;
    if i < networks.len() - 1 {
        law_scannable_networks_are_scanned(networks.drop_last(), i);
    }
    if scans(before, wanted) {
        let k = choose|k: int| 0 <= k < before.len() && (#[trigger] before[k]).scan_address
            == wanted;
        assert(all[k] == before[k]);
    } else {
        assert(all[all.len() - 1].scan_address == wanted);
    }
}

/// Every target comes from a network that is worth scanning.
pub proof fn law_targets_come_from_networks(networks: Seq<LocalIpv4NetworkView>, j: int)
    requires
        0 <= j < network_targets(networks).len(),
    ensures
        exists|i: int|
            0 <= i < networks.len() && is_scannable(#[trigger] networks[i])
                && network_targets(networks)[j] == network_target(networks[i]),
    decreases networks.len(),
{
    if networks.len() > 0 {
        let front = networks.drop_last();
        let before = network_targets(front);
        if j < before.len() {
            law_targets_come_from_networks(front, j);
            let i = choose|i: int|
                0 <= i < front.len() && is_scannable(#[trigger] front[i]) && before[j]
                    == network_target(front[i]);
            assert(networks[i] == front[i]);
        } else {
            assert(is_scannable(networks[networks.len() - 1]));
        }
    }
}

/// Where nothing is asked for and no local network is worth scanning, the limited broadcast address
/// is scanned.
pub proof fn law_no_usable_network_means_limited_broadcast(networks: Seq<LocalIpv4NetworkView>)
    requires
        forall|i: int| 0 <= i < networks.len() ==> !is_scannable(#[trigger] networks[i]),
    ensures
        targets::scan_outcome(Seq::empty(), Seq::empty(), network_targets(networks)) == Ok::<
            _,
            ErrorView,
        >(
            seq![
                DiscoveryTargetView {
                    requested: targets::limited_broadcast(),
                    scan_address: targets::limited_broadcast(),
                },
            ],
        ),
{
    if network_targets(networks).len() > 0 {
        law_targets_come_from_networks(networks, 0);
    }
}

/// The broadcast address is the last of its subnet: not before the address, one below a multiple of
/// the subnet's size, and less than that size away. No other address is.
pub proof fn law_broadcast_address_is_last(a: Ipv4Addr, prefix: nat, other: Ipv4Addr)
    requires
        prefix <= 32,
    ensures
        ({
            let size = vstd::arithmetic::power2::pow2((32 - prefix) as nat) as int;
            let last = broadcast_address(a, prefix);
            &&& last.bits >= a.bits
            &&& (last.bits + 1) % size == 0
            &&& last.bits - a.bits < size
            &&& other.bits >= a.bits && (other.bits + 1) % size == 0 && other.bits - a.bits < size
                ==> other == last
        }),
{
    law_subnet_ends(a, prefix);
    lemma_block_size(prefix);
    let size = block_size(prefix) as int;
    let first = network_address(a, prefix).bits as int;
    let last = broadcast_address(a, prefix).bits as int;
    assert(last + 1 == first + size);
    assert((first + size) % size == 0) by (nonlinear_arith)
        requires
            first % size == 0,
            size > 0,
    ;
    if other.bits >= a.bits && (other.bits + 1) % size == 0 && other.bits - a.bits < size {
        let gap = other.bits - last;
        assert(-size < gap < size);
        assert(gap == 0) by (nonlinear_arith)
            requires
                (other.bits + 1) % size == 0,
                (last + 1) % size == 0,
                gap == other.bits - last,
                -size < gap < size,
        ;
    }
}

/// The network address is the first of its subnet: not after the address, a multiple of the
/// subnet's size, and less than that size away. No other address is.
pub proof fn law_network_address_is_first(a: Ipv4Addr, prefix: nat, other: Ipv4Addr)
    requires
        prefix <= 32,
    ensures
        ({
            let size = vstd::arithmetic::power2::pow2((32 - prefix) as nat) as int;
            let first = network_address(a, prefix);
            &&& first.bits <= a.bits
            &&& first.bits as int % size == 0
            &&& a.bits - first.bits < size
            &&& other.bits <= a.bits && other.bits as int % size == 0 && a.bits - other.bits < size
                ==> other == first
        }),
{
    law_subnet_ends(a, prefix);
    lemma_block_size(prefix);
    let size = block_size(prefix) as int;
    let first = network_address(a, prefix).bits as int;
    if other.bits <= a.bits && other.bits as int % size == 0 && a.bits - other.bits < size {
        let gap = other.bits - first;
        assert(-size < gap < size);
        assert(gap == 0) by (nonlinear_arith)
            requires
                other.bits as int % size == 0,
                first % size == 0,
                gap == other.bits - first,
                -size < gap < size,
        ;
    }
}

/// A netmask stands for a prefix exactly where its bits are all set but for those of a host.
pub proof fn law_netmasks(netmask: Ipv4Addr, prefix: nat)
    requires
        prefix <= 32,
    ensures
        netmask_prefix(netmask) == Some(prefix) <==> netmask.bits
            + vstd::arithmetic::power2::pow2((32 - prefix) as nat) == 0x1_0000_0000,
        netmask_prefix(netmask) matches Some(p) ==> p <= 32,
{
    if netmask.bits + block_size(prefix) == 0x1_0000_0000 {
        lemma_netmask_prefix(netmask, prefix);
    }
    if let Some(p) = netmask_prefix(netmask) {
        assert(is_netmask(netmask, p));
    }
}

/// A network is worth scanning exactly where its netmask leaves room for more than two hosts and its
/// address is neither `0.0.0.0` nor one of `127.0.0.0/8` or `169.254.0.0/16`.
pub proof fn law_networks_worth_scanning(n: LocalIpv4NetworkView, prefix: nat)
    requires
        prefix <= 32,
        n.netmask.bits + vstd::arithmetic::power2::pow2((32 - prefix) as nat) == 0x1_0000_0000,
    ensures
        is_scannable(n) <==> prefix <= 30 && n.ip.bits != 0 && !(0x7f00_0000 <= n.ip.bits
            <= 0x7fff_ffff) && !(0xa9fe_0000 <= n.ip.bits <= 0xa9fe_ffff),
{
    law_netmasks(n.netmask, prefix);
}

/// A network with a netmask that stands for no prefix is not scanned.
pub proof fn law_odd_netmasks_are_not_scanned(n: LocalIpv4NetworkView)
    requires
        forall|p: nat|
            p <= 32 ==> n.netmask.bits + #[trigger] vstd::arithmetic::power2::pow2((32 - p) as nat)
                != 0x1_0000_0000,
    ensures
        !is_scannable(n),
{
    if let Some(p) = netmask_prefix(n.netmask) {
        assert(is_netmask(n.netmask, p));
        assert(n.netmask.bits + vstd::arithmetic::power2::pow2((32 - p) as nat) == 0x1_0000_0000);
    }
}

/// The target for a network names the interface, the network and the prefix, and scans the last
/// address of the network.
pub proof fn law_target_of_a_network(n: LocalIpv4NetworkView, prefix: nat)
    requires
        prefix <= 32,
        n.netmask.bits + vstd::arithmetic::power2::pow2((32 - prefix) as nat) == 0x1_0000_0000,
    ensures
        network_target(n).requested == n.name + seq![':'] + ipv4::ipv4_text(
            network_address(n.ip, prefix),
        ) + seq!['/'] + numeral::decimal(prefix),
        network_target(n).scan_address == ipv4::ipv4_text(broadcast_address(n.ip, prefix)),
{
    law_netmasks(n.netmask, prefix);
    assert(network_target(n).requested =~= n.name + seq![':'] + ipv4::ipv4_text(
        network_address(n.ip, prefix),
    ) + seq!['/'] + numeral::decimal(prefix));
}

/// Of every local network with room for more than two hosts and an address that others can reach,
/// the last address is scanned: the one at or after the network's own that ends its block of
/// addresses.
pub proof fn law_last_addresses_are_scanned(
    networks: Seq<LocalIpv4NetworkView>,
    i: int,
    prefix: nat,
    last: Ipv4Addr,
)
    requires
        0 <= i < networks.len(),
        prefix <= 30,
        networks[i].netmask.bits + vstd::arithmetic::power2::pow2((32 - prefix) as nat)
            == 0x1_0000_0000,
        networks[i].ip.bits != 0,
        !(0x7f00_0000 <= networks[i].ip.bits <= 0x7fff_ffff),
        !(0xa9fe_0000 <= networks[i].ip.bits <= 0xa9fe_ffff),
        last.bits >= networks[i].ip.bits,
        (last.bits + 1) % (vstd::arithmetic::power2::pow2((32 - prefix) as nat) as int) == 0,
        last.bits - networks[i].ip.bits < vstd::arithmetic::power2::pow2((32 - prefix) as nat),
    ensures
        exists|j: int|
            0 <= j < network_targets(networks).len() && (#[trigger] network_targets(
                networks,
            )[j]).scan_address == ipv4::ipv4_text(last),
{
    let n = networks[i];
    law_networks_worth_scanning(n, prefix);
    law_target_of_a_network(n, prefix);
    law_broadcast_address_is_last(n.ip, prefix, last);
    law_scannable_networks_are_scanned(networks, i);
}

/// Nothing else is scanned: every target is that of a local network with room for more than two
/// hosts and an address that others can reach, and scans the last address of it.
pub proof fn law_only_last_addresses_are_scanned(networks: Seq<LocalIpv4NetworkView>, j: int)
    requires
        0 <= j < network_targets(networks).len(),
    ensures
        exists|i: int, prefix: nat|
            0 <= i < networks.len() && prefix <= 30 && #[trigger] networks[i].netmask.bits
                + #[trigger] vstd::arithmetic::power2::pow2((32 - prefix) as nat) == 0x1_0000_0000
                && networks[i].ip.bits != 0 && !(0x7f00_0000 <= networks[i].ip.bits <= 0x7fff_ffff)
                && !(0xa9fe_0000 <= networks[i].ip.bits <= 0xa9fe_ffff) && network_targets(
                networks,
            )[j].scan_address == ipv4::ipv4_text(broadcast_address(networks[i].ip, prefix))
                && network_targets(networks)[j].requested == networks[i].name + seq![':']
                + ipv4::ipv4_text(network_address(networks[i].ip, prefix)) + seq!['/']
                + numeral::decimal(prefix),
{
    law_targets_come_from_networks(networks, j);
    let i = choose|i: int|
        0 <= i < networks.len() && is_scannable(#[trigger] networks[i]) && network_targets(
            networks,
        )[j] == network_target(networks[i]);
    let n = networks[i];
    let prefix = netmask_prefix(n.netmask).unwrap();
    assert(is_netmask(n.netmask, prefix));
    assert(n.netmask.bits + vstd::arithmetic::power2::pow2((32 - prefix) as nat) == 0x1_0000_0000);
    law_networks_worth_scanning(n, prefix);
    law_target_of_a_network(n, prefix);
}

/// One more network adds its target at the end, unless it is not worth scanning or its last address
/// is scanned already. No network gives no target.
pub proof fn law_one_more_network(networks: Seq<LocalIpv4NetworkView>, n: LocalIpv4NetworkView)
    ensures
        network_targets(Seq::empty()).len() == 0,
        !is_scannable(n) ==> network_targets(networks.push(n)) == network_targets(networks),
        is_scannable(n) && (exists|j: int|
            0 <= j < network_targets(networks).len() && (#[trigger] network_targets(
                networks,
            )[j]).scan_address == network_target(n).scan_address) ==> network_targets(
            networks.push(n),
        ) == network_targets(networks),
        is_scannable(n) && !(exists|j: int|
            0 <= j < network_targets(networks).len() && (#[trigger] network_targets(
                networks,
            )[j]).scan_address == network_target(n).scan_address) ==> network_targets(
            networks.push(n),
        ) == network_targets(networks).push(network_target(n)),
{
    assert(networks.push(n).drop_last() =~= networks);
}

/// The local networks are those of the interfaces with an IPv4 address, all of them and in order.
pub proof fn law_ipv4_interfaces(interfaces: Seq<LocalInterface>, i: LocalInterface)
    ensures
        ipv4_networks(Seq::empty()).len() == 0,
        i.address is V6 ==> ipv4_networks(interfaces.push(i)) == ipv4_networks(interfaces),
        i.address matches LocalAddress::V4 { ip, netmask } ==> ipv4_networks(interfaces.push(i))
            == ipv4_networks(interfaces).push(
            LocalIpv4NetworkView { name: i.name@, ip, netmask },
        ),
{
    assert(interfaces.push(i).drop_last() =~= interfaces);
}

/// The view of a network shows its fields as they are, and that of a list each network in turn.
pub proof fn law_network_shows_its_fields(networks: Seq<LocalIpv4Network>)
    ensures
        network_views(networks).len() == networks.len(),
        forall|i: int|
            0 <= i < networks.len() ==> (#[trigger] network_views(networks)[i]).name
                == networks[i].name@ && network_views(networks)[i].ip == networks[i].ip
                && network_views(networks)[i].netmask == networks[i].netmask,
{
}

} // verus!
