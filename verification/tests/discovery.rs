use tapoctl::candidates::{
    addition_plan, all_indices, candidates_from_lowered, should_prompt_for_discovery_adds,
    AdditionPlan, LoweredTexts,
};
use tapoctl::discovery::{validate_discovery_timeout, validate_discovery_timeout_flag};
use tapoctl::error::NumberFault;
use tapoctl::subnet::{
    ipv4_broadcast_address, ipv4_netmask_prefix, local_ipv4_networks, LocalAddress, LocalInterface,
};
use tapoctl::targets::{normalise_discovery_target, wants_automatic_targets};
use tapoctl::{
    add_device, add_discovery_candidates, automatic_discovery_targets,
    discovered_device_from_result, discovery_add_candidates, discovery_scan_targets,
    discovery_scan_targets_with_auto, discovery_targets_from_local_ipv4_networks, Config,
    DeviceConfig, DeviceModel, DiscoveredDevice, DiscoveryAddCandidate, DiscoveryReport,
    DiscoverySession, DiscoveryTarget, Error, IpAddr, Ipv4Addr, LocalIpv4Network,
};

fn address(text: &str) -> IpAddr {
    text.parse().unwrap()
}

fn ipv4(text: &str) -> Ipv4Addr {
    text.parse().unwrap()
}

fn network(name: &str, ip: &str, netmask: &str) -> LocalIpv4Network {
    LocalIpv4Network { name: name.to_string(), ip: ipv4(ip), netmask: ipv4(netmask) }
}

fn strings(texts: &[&str]) -> Vec<String> {
    texts.iter().map(|t| t.to_string()).collect()
}

fn report(ip: &str, model: &str, nickname: &str) -> DiscoveryReport {
    DiscoveryReport {
        ip: ip.to_string(),
        model: model.to_string(),
        nickname: nickname.to_string(),
        device_type: "Plug".to_string(),
    }
}

fn found(ip: &str, model: &str, nickname: &str) -> DiscoveredDevice {
    discovered_device_from_result(&report(ip, model, nickname)).unwrap()
}

fn scan_of(target: &str) -> String {
    normalise_discovery_target(target).unwrap().scan_address
}

#[test]
fn broadcast_addresses_end_their_subnets() {
    let cases = [
        ("192.168.1.42", 24, "192.168.1.255"),
        ("192.168.1.42", 32, "192.168.1.42"),
        ("192.168.1.42", 31, "192.168.1.43"),
        ("192.168.1.42", 30, "192.168.1.43"),
        ("10.42.5.10", 16, "10.42.255.255"),
        ("10.42.5.10", 1, "127.255.255.255"),
        ("10.42.5.10", 0, "255.255.255.255"),
    ];
    for (ip, prefix, broadcast) in cases {
        let address = ipv4_broadcast_address(ipv4(ip), prefix);
        assert_eq!(address, ipv4(broadcast));
        assert_eq!(ipv4_broadcast_address(address, prefix), address);
    }
}

#[test]
fn netmasks_stand_for_prefixes() {
    assert_eq!(ipv4_netmask_prefix(ipv4("0.0.0.0")), Some(0));
    assert_eq!(ipv4_netmask_prefix(ipv4("128.0.0.0")), Some(1));
    assert_eq!(ipv4_netmask_prefix(ipv4("255.255.255.0")), Some(24));
    assert_eq!(ipv4_netmask_prefix(ipv4("255.255.255.254")), Some(31));
    assert_eq!(ipv4_netmask_prefix(ipv4("255.255.255.255")), Some(32));
    assert_eq!(ipv4_netmask_prefix(ipv4("255.0.255.0")), None);
    assert_eq!(ipv4_netmask_prefix(ipv4("0.0.0.255")), None);
    assert_eq!(ipv4_netmask_prefix(ipv4("64.0.0.0")), None);
}

#[test]
fn networks_that_lead_nowhere_are_not_scanned() {
    let networks = vec![
        network("any", "0.0.0.0", "255.255.255.0"),
        network("lo", "127.5.5.5", "255.255.255.0"),
        network("ll", "169.254.3.4", "255.255.0.0"),
        network("odd", "10.0.0.1", "255.0.255.0"),
        network("ptp", "10.0.0.1", "255.255.255.254"),
        network("host", "10.0.0.1", "255.255.255.255"),
    ];
    assert!(discovery_targets_from_local_ipv4_networks(&networks).is_empty());
    let targets = discovery_scan_targets_with_auto(
        &[],
        &[],
        discovery_targets_from_local_ipv4_networks(&networks),
    )
    .unwrap();
    assert_eq!(targets.len(), 1);
    assert_eq!(targets[0].scan_address, "255.255.255.255");
}

#[test]
fn networks_with_the_same_broadcast_address_are_scanned_once() {
    let networks = vec![
        network("eth0", "192.168.1.42", "255.255.255.0"),
        network("wlan0", "192.168.1.77", "255.255.255.0"),
        network("wlan1", "169.253.0.1", "255.255.0.0"),
        network("eth1", "192.168.1.250", "255.255.255.128"),
    ];
    let targets = discovery_targets_from_local_ipv4_networks(&networks);
    assert_eq!(targets.len(), 2);
    assert_eq!(targets[0].requested, "eth0:192.168.1.0/24");
    assert_eq!(targets[0].scan_address, "192.168.1.255");
    assert_eq!(targets[1].requested, "wlan1:169.253.0.0/16");
    assert_eq!(targets[1].scan_address, "169.253.255.255");
}

#[test]
fn only_ipv4_interfaces_are_scanned() {
    let interfaces = vec![
        LocalInterface { name: "eth0".to_string(), address: LocalAddress::V6 },
        LocalInterface {
            name: "eth0".to_string(),
            address: LocalAddress::V4 {
                ip: ipv4("192.168.1.42"),
                netmask: ipv4("255.255.255.0"),
            },
        },
    ];
    assert_eq!(
        local_ipv4_networks(&interfaces),
        vec![network("eth0", "192.168.1.42", "255.255.255.0")]
    );
    let targets = automatic_discovery_targets(&interfaces);
    assert_eq!(targets.len(), 1);
    assert_eq!(targets[0].scan_address, "192.168.1.255");
    assert!(automatic_discovery_targets(&interfaces[..1]).is_empty());
}

#[test]
fn targets_are_trimmed() {
    let target = normalise_discovery_target(" \t192.168.1.0/24\u{2028}").unwrap();
    assert_eq!(target.requested, "192.168.1.0/24");
    assert_eq!(target.scan_address, "192.168.1.255");
    assert_eq!(target, normalise_discovery_target("192.168.1.0/24").unwrap());
}

#[test]
fn ipv6_addresses_are_targets() {
    let target = normalise_discovery_target("FE80:0::1").unwrap();
    assert_eq!(target.requested, "FE80:0::1");
    assert_eq!(target.scan_address, "fe80::1");
    assert_eq!(scan_of(&target.scan_address), "fe80::1");
}

#[test]
fn prefixes_may_have_a_sign_and_leading_zeros() {
    assert_eq!(scan_of("10.0.0.1/+8"), "10.255.255.255");
    assert_eq!(scan_of("10.0.0.1/0008"), "10.255.255.255");
    assert_eq!(scan_of("10.0.0.1/0"), "255.255.255.255");
    assert_eq!(scan_of("10.0.0.1/32"), "10.0.0.1");
}

#[test]
fn every_target_error_says_what_is_wrong() {
    let error = |text: &str| normalise_discovery_target(text).unwrap_err();
    let target = |text: &str| text.to_string();

    assert_eq!(error(" \n"), Error::EmptyTarget);
    assert_eq!(error("").to_string(), "discovery target cannot be empty");

    assert_eq!(error("1.2.3.4/8/9"), Error::InvalidCidrTarget { target: target("1.2.3.4/8/9") });
    assert_eq!(
        error("x//").to_string(),
        "invalid IPv4 CIDR target 'x//'"
    );

    assert_eq!(error(" ::1/64"), Error::InvalidCidrAddress { target: target("::1/64") });
    assert_eq!(
        error("/24").to_string(),
        "invalid IPv4 CIDR address in target '/24'"
    );
    assert_eq!(error("/24").cause().unwrap(), "invalid IPv4 address syntax");

    for (text, fault, cause) in [
        ("1.2.3.4/", NumberFault::Empty, "cannot parse integer from empty string"),
        ("1.2.3.4/+", NumberFault::InvalidDigit, "invalid digit found in string"),
        ("1.2.3.4/-1", NumberFault::InvalidDigit, "invalid digit found in string"),
        ("1.2.3.4/2 4", NumberFault::InvalidDigit, "invalid digit found in string"),
        ("1.2.3.4/++8", NumberFault::InvalidDigit, "invalid digit found in string"),
        ("1.2.3.4/25x999", NumberFault::InvalidDigit, "invalid digit found in string"),
        ("1.2.3.4/256", NumberFault::Overflow, "number too large to fit in target type"),
        ("1.2.3.4/9999x", NumberFault::Overflow, "number too large to fit in target type"),
    ] {
        let e = error(text);
        assert_eq!(e, Error::InvalidCidrPrefix { target: target(text), fault });
        assert_eq!(e.to_string(), format!("invalid IPv4 CIDR prefix in target '{text}'"));
        assert_eq!(e.cause().unwrap(), cause);
    }

    for text in ["1.2.3.4/33", "1.2.3.4/255"] {
        assert_eq!(error(text), Error::CidrPrefixTooLong { target: target(text) });
        assert_eq!(
            error(text).to_string(),
            format!("invalid IPv4 CIDR prefix in target '{text}': expected 0 to 32")
        );
        assert_eq!(error(text).cause(), None);
    }

    assert_eq!(error("desk"), Error::InvalidTarget { target: target("desk") });
    assert_eq!(error("desk").to_string(), "invalid discovery target 'desk'");
    assert_eq!(error("desk").cause().unwrap(), "invalid IP address syntax");
}

#[test]
fn scan_addresses_are_targets_of_their_own() {
    for text in ["192.168.1.0/24", "10.0.0.1", "::FFFF:1.2.3.4", "1.2.3.4/0"] {
        let scan = scan_of(text);
        let again = normalise_discovery_target(&scan).unwrap();
        assert_eq!(again, DiscoveryTarget { requested: scan.clone(), scan_address: scan });
    }
}

#[test]
fn the_first_bad_target_is_reported() {
    let positional = strings(&["10.0.0.1", "a", "b"]);
    let flags = strings(&["c"]);
    assert_eq!(
        discovery_scan_targets(&positional, &flags),
        Err(Error::InvalidTarget { target: "a".to_string() })
    );
    assert_eq!(
        discovery_scan_targets(&positional[..1], &flags),
        Err(Error::InvalidTarget { target: "c".to_string() })
    );
}

#[test]
fn asking_for_targets_leaves_the_automatic_ones_out() {
    let auto = vec![DiscoveryTarget {
        requested: "eth0:10.0.0.0/8".to_string(),
        scan_address: "10.255.255.255".to_string(),
    }];
    let flags = strings(&["192.168.1.50", "192.168.1.50"]);
    let targets = discovery_scan_targets_with_auto(&[], &flags, auto).unwrap();
    assert_eq!(targets.len(), 2);
    assert_eq!(targets[0].scan_address, "192.168.1.50");
    assert_eq!(targets[1].scan_address, "192.168.1.50");
    assert!(wants_automatic_targets(&[], &[]));
    assert!(!wants_automatic_targets(&[], &flags));
    assert!(!wants_automatic_targets(&flags, &[]));
}

#[test]
fn scans_wait_for_one_to_sixty_seconds() {
    for seconds in [1, 5, 60] {
        assert_eq!(validate_discovery_timeout(seconds), Ok(()));
        assert_eq!(validate_discovery_timeout_flag(seconds), Ok(()));
    }
    for seconds in [0, 61, u64::MAX] {
        assert_eq!(
            validate_discovery_timeout(seconds).unwrap_err().to_string(),
            "discovery_timeout_seconds must be between 1 and 60"
        );
        assert_eq!(
            validate_discovery_timeout_flag(seconds).unwrap_err().to_string(),
            "--discovery-timeout-seconds must be between 1 and 60"
        );
    }
}

#[test]
fn reports_are_read() {
    let device = found("192.168.1.50", "P110M", "Desk");
    assert_eq!(device.ip, address("192.168.1.50"));
    assert_eq!(device.model, "P110M");
    assert_eq!(device.nickname, "Desk");
    assert_eq!(device.device_type, "Plug");
    assert_eq!(device.supported_model, Some(DeviceModel::P110));
    assert_eq!(found("fe80::1", "L530", "Lamp").supported_model, None);
    let error = discovered_device_from_result(&report("nowhere", "P110", "Desk")).unwrap_err();
    assert_eq!(error, Error::InvalidReportedAddress { ip: "nowhere".to_string() });
    assert_eq!(
        error.to_string(),
        "discovered device returned an invalid IP address: nowhere"
    );
    assert_eq!(error.cause().unwrap(), "invalid IP address syntax");
}

#[test]
fn a_scan_keeps_the_first_device_at_each_address() {
    let mut session = DiscoverySession::new();
    assert!(session.devices().is_empty());
    assert_eq!(session.record_report(&report("10.0.0.1", "P100", "a")), Ok(true));
    assert_eq!(session.record_report(&report("10.0.0.2", "L530", "b")), Ok(true));
    assert_eq!(session.record_report(&report("10.0.0.1", "P110", "c")), Ok(false));
    assert!(session.record_report(&report("?", "P110", "d")).is_err());
    assert!(session.record(found("10.0.0.3", "p115", "e")));
    let names: Vec<&str> = session.devices().iter().map(|d| d.nickname.as_str()).collect();
    assert_eq!(names, ["a", "b", "e"]);
    assert_eq!(session.supported_count(), 2);
    assert_eq!(session.error_count(), 0);
    session.record_error();
    session.record_error();
    assert_eq!(session.error_count(), 2);
    assert_eq!(session.devices().len(), 3);
}

#[test]
fn errors_do_not_end_a_scan() {
    let mut session = DiscoverySession::new();
    session.record_error();
    assert_eq!(session.record_report(&report("10.0.0.1", "P100", "a")), Ok(true));
    session.record_error();
    assert_eq!(session.record_report(&report("10.0.0.1", "P100", "b")), Ok(false));
    assert_eq!(session.record_report(&report("10.0.0.2", "P100", "c")), Ok(true));
    assert_eq!(session.error_count(), 2);
    assert_eq!(session.devices().len(), 2);
}

#[test]
fn candidates_take_new_names_and_new_addresses() {
    let mut config = Config::default();
    let desk = DeviceConfig { ip: address("10.0.0.1"), model: DeviceModel::P100 };
    add_device(&mut config, "desk".to_string(), desk, false).unwrap();
    let devices = vec![
        found("10.0.0.1", "P110", "Other"),
        found("10.0.0.2", "P110", "Desk"),
        found("10.0.0.2", "P115", "Twin"),
        found("10.0.0.3", "L530", "Lamp"),
        found("10.0.0.4", "P105", "Desk"),
        found("10.0.0.5", "P105", ""),
    ];
    let candidates = discovery_add_candidates(&config, &devices);
    let names: Vec<&str> = candidates.iter().map(|c| c.name.as_str()).collect();
    assert_eq!(names, ["desk-2", "desk-3", "p105-10-0-0-5"]);
    assert_eq!(candidates[1].ip, address("10.0.0.4"));
    assert_eq!(candidates[1].model, DeviceModel::P105);
    assert_eq!(candidates[0].label, "Desk (P110) at 10.0.0.2 -> desk-2");
    assert_eq!(candidates[2].label, " (P105) at 10.0.0.5 -> p105-10-0-0-5");
}

#[test]
fn candidates_can_be_made_of_texts_in_lower_case() {
    let devices = vec![found("10.0.0.1", "P110", "K\u{dc}CHE")];
    let lowered = vec![LoweredTexts {
        nickname: "k\u{fc}che".chars().collect(),
        model: "p110".chars().collect(),
    }];
    let candidates = candidates_from_lowered(&Config::default(), &devices, &lowered);
    assert_eq!(candidates, discovery_add_candidates(&Config::default(), &devices));
    assert_eq!(candidates[0].name, "kche");
}

#[test]
fn any_selection_of_candidates_can_be_added() {
    let devices = vec![
        found("10.0.0.1", "P110", "Plug"),
        found("10.0.0.2", "P110", "Plug"),
        found("10.0.0.3", "P110", "Plug"),
    ];
    let mut config = Config::default();
    let candidates = discovery_add_candidates(&config, &devices);
    let names = add_discovery_candidates(&mut config, &candidates, &[2, 0]).unwrap();
    assert_eq!(names, ["plug-3", "plug"]);
    assert_eq!(config.devices.len(), 2);
    assert_eq!(config.devices.get("plug-3").unwrap().ip, address("10.0.0.3"));
    let again = discovery_add_candidates(&config, &devices);
    assert_eq!(again.len(), 1);
    assert_eq!(again[0].name, "plug-2");
}

#[test]
fn nothing_is_offered_twice() {
    let devices = vec![
        found("10.0.0.1", "P110", "Plug"),
        found("10.0.0.2", "P100", "Plug"),
    ];
    let mut config = Config::default();
    let candidates = discovery_add_candidates(&config, &devices);
    let all = all_indices(candidates.len());
    assert_eq!(all, [0, 1]);
    let added = add_discovery_candidates(&mut config, &candidates, &all).unwrap();
    assert_eq!(added, ["plug", "plug-2"]);
    assert!(discovery_add_candidates(&config, &devices).is_empty());
}

#[test]
fn adding_stops_at_the_first_candidate_that_cannot_be_added() {
    let devices = vec![found("10.0.0.1", "P110", "a"), found("10.0.0.2", "P110", "b")];
    let mut config = Config::default();
    let mut candidates: Vec<DiscoveryAddCandidate> = discovery_add_candidates(&config, &devices);
    let error = add_discovery_candidates(&mut config, &candidates, &[1, 2, 0]).unwrap_err();
    assert_eq!(error, Error::CandidateOutOfRange { index: 2 });
    assert_eq!(
        error.to_string(),
        "selected discovery candidate index 2 is out of range"
    );
    assert!(config.devices.contains_key("b"));
    assert!(!config.devices.contains_key("a"));
    assert_eq!(
        add_discovery_candidates(&mut config, &candidates, &[1]),
        Err(Error::DeviceExists { name: "b".to_string() })
    );
    candidates[0].name = "not valid".to_string();
    assert_eq!(
        add_discovery_candidates(&mut config, &candidates, &[0]),
        Err(Error::InvalidDeviceName)
    );
    assert_eq!(config.devices.len(), 1);
    assert_eq!(add_discovery_candidates(&mut config, &candidates, &[]), Ok(vec![]));
}

#[test]
fn candidates_are_added_asked_about_or_hinted_at() {
    assert_eq!(addition_plan(true, true, 0), AdditionPlan::AddAll);
    assert_eq!(addition_plan(true, false, 3), AdditionPlan::AddAll);
    assert_eq!(addition_plan(false, true, 3), AdditionPlan::Choose);
    assert_eq!(addition_plan(false, true, 0), AdditionPlan::NothingToChoose);
    assert_eq!(addition_plan(false, false, 1), AdditionPlan::Hint);
    assert_eq!(addition_plan(false, false, 0), AdditionPlan::Pass);
    assert!(should_prompt_for_discovery_adds(false, true, true));
    assert!(!should_prompt_for_discovery_adds(true, true, true));
    assert!(!should_prompt_for_discovery_adds(false, false, true));
    assert!(!should_prompt_for_discovery_adds(false, true, false));
}
