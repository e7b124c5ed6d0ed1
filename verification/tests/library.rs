use std::str::FromStr;

use tapoctl::{
    add_device, add_discovery_candidates, discovered_device_name, discovery_add_candidates,
    discovery_scan_targets, discovery_scan_targets_with_auto,
    discovery_targets_from_local_ipv4_networks, remove_device, supported_device_model,
    validate_device_name, Config, DeviceConfig, DeviceModel, DiscoveredDevice, DiscoveryTarget,
    IpAddr, LocalIpv4Network,
};

fn plug(ip: &str) -> DeviceConfig {
    DeviceConfig {
        ip: ip.parse().expect("test IP should be valid"),
        model: DeviceModel::P110,
    }
}

fn discovered_plug(ip: &str, nickname: &str) -> DiscoveredDevice {
    DiscoveredDevice {
        ip: ip.parse().expect("test IP should be valid"),
        model: "P110".to_string(),
        nickname: nickname.to_string(),
        device_type: "Plug with Energy Monitoring".to_string(),
        supported_model: Some(DeviceModel::P110),
    }
}

#[test]
fn parses_supported_models_case_insensitively() {
    assert_eq!(DeviceModel::from_str("P100").unwrap(), DeviceModel::P100);
    assert_eq!(DeviceModel::from_str("p105").unwrap(), DeviceModel::P105);
    assert_eq!(DeviceModel::from_str("P110M").unwrap(), DeviceModel::P110);
    assert_eq!(DeviceModel::from_str("p115").unwrap(), DeviceModel::P115);
}

#[test]
fn rejects_unknown_models() {
    let error = DeviceModel::from_str("shelly-plug").unwrap_err();

    assert!(error.to_string().contains("unsupported model"));
}

#[test]
fn maps_supported_discovery_models() {
    assert_eq!(supported_device_model("P100"), Some(DeviceModel::P100));
    assert_eq!(supported_device_model("P105"), Some(DeviceModel::P105));
    assert_eq!(supported_device_model("P110"), Some(DeviceModel::P110));
    assert_eq!(supported_device_model("P110M"), Some(DeviceModel::P110));
    assert_eq!(supported_device_model("P115"), Some(DeviceModel::P115));
    assert_eq!(supported_device_model("L530"), None);
}

#[test]
fn derives_safe_names_for_discovered_devices() {
    let config = Config::default();
    let name = discovered_device_name(
        &config,
        "Desk Plug (P110)",
        "P110",
        "192.168.1.50".parse().unwrap(),
    );

    assert_eq!(name, "desk-plug-p110");
}

#[test]
fn falls_back_to_model_and_ip_when_nickname_is_empty() {
    let config = Config::default();
    let name = discovered_device_name(&config, "", "P110", "192.168.1.50".parse().unwrap());

    assert_eq!(name, "p110-192-168-1-50");
}

#[test]
fn avoids_name_collisions_for_discovered_devices() {
    let mut config = Config::default();
    add_device(
        &mut config,
        "desk-plug".to_string(),
        plug("192.168.1.50"),
        false,
    )
    .unwrap();

    let name = discovered_device_name(
        &config,
        "Desk Plug",
        "P110",
        "192.168.1.51".parse().unwrap(),
    );

    assert_eq!(name, "desk-plug-2");
}

#[test]
fn adds_named_devices_without_replacing_existing_entries() {
    let mut config = Config::default();

    add_device(&mut config, "desk".to_string(), plug("192.168.1.50"), false).unwrap();
    let error =
        add_device(&mut config, "desk".to_string(), plug("192.168.1.51"), false).unwrap_err();

    assert!(error.to_string().contains("already exists"));
    assert_eq!(
        config.devices.get("desk").unwrap().ip,
        "192.168.1.50".parse::<IpAddr>().unwrap()
    );
}

#[test]
fn replaces_named_devices_when_explicitly_requested() {
    let mut config = Config::default();

    add_device(&mut config, "desk".to_string(), plug("192.168.1.50"), false).unwrap();
    add_device(&mut config, "desk".to_string(), plug("192.168.1.51"), true).unwrap();

    assert_eq!(
        config.devices.get("desk").unwrap().ip,
        "192.168.1.51".parse::<IpAddr>().unwrap()
    );
}

#[test]
fn removes_configured_devices() {
    let mut config = Config::default();
    add_device(&mut config, "desk".to_string(), plug("192.168.1.50"), false).unwrap();

    let removed = remove_device(&mut config, "desk").unwrap();

    assert_eq!(removed.ip, "192.168.1.50".parse::<IpAddr>().unwrap());
    assert!(config.devices.is_empty());
}

#[test]
fn validates_device_names_for_shell_safe_lookup() {
    assert!(validate_device_name("desk_plug-1").is_ok());
    assert!(validate_device_name("desk plug").is_err());
    assert!(validate_device_name("").is_err());
}

#[test]
fn defaults_discovery_to_limited_broadcast_when_no_targets_are_given() {
    let targets = discovery_scan_targets(&[], &[]).unwrap();

    assert_eq!(targets.len(), 1);
    assert_eq!(targets[0].requested, "255.255.255.255");
    assert_eq!(targets[0].scan_address, "255.255.255.255");
}

#[test]
fn accepts_positional_and_flag_discovery_targets() {
    let positional = vec!["192.168.0.40".to_string()];
    let flags = vec!["192.168.0.255".to_string()];
    let targets = discovery_scan_targets(&positional, &flags).unwrap();

    assert_eq!(targets.len(), 2);
    assert_eq!(targets[0].scan_address, "192.168.0.40");
    assert_eq!(targets[1].scan_address, "192.168.0.255");
}

#[test]
fn converts_ipv4_cidr_targets_to_broadcast_addresses() {
    let positional = vec!["192.168.0.0/24".to_string(), "10.42.5.10/16".to_string()];
    let targets = discovery_scan_targets(&positional, &[]).unwrap();

    assert_eq!(targets[0].requested, "192.168.0.0/24");
    assert_eq!(targets[0].scan_address, "192.168.0.255");
    assert_eq!(targets[1].requested, "10.42.5.10/16");
    assert_eq!(targets[1].scan_address, "10.42.255.255");
}

#[test]
fn rejects_invalid_discovery_targets() {
    let positional = vec!["192.168.0.0/33".to_string()];
    let error = discovery_scan_targets(&positional, &[]).unwrap_err();

    assert!(error.to_string().contains("invalid IPv4 CIDR prefix"));
}

#[test]
fn derives_discovery_targets_from_local_ipv4_networks() {
    let networks = vec![LocalIpv4Network {
        name: "wlan0".to_string(),
        ip: "192.168.0.42".parse().unwrap(),
        netmask: "255.255.255.0".parse().unwrap(),
    }];
    let targets = discovery_targets_from_local_ipv4_networks(&networks);

    assert_eq!(targets.len(), 1);
    assert_eq!(targets[0].requested, "wlan0:192.168.0.0/24");
    assert_eq!(targets[0].scan_address, "192.168.0.255");
}

#[test]
fn skips_loopback_and_point_to_point_local_ipv4_networks() {
    let networks = vec![
        LocalIpv4Network {
            name: "lo".to_string(),
            ip: "127.0.0.1".parse().unwrap(),
            netmask: "255.0.0.0".parse().unwrap(),
        },
        LocalIpv4Network {
            name: "tun0".to_string(),
            ip: "10.0.0.1".parse().unwrap(),
            netmask: "255.255.255.255".parse().unwrap(),
        },
    ];

    assert!(discovery_targets_from_local_ipv4_networks(&networks).is_empty());
}

#[test]
fn uses_auto_targets_when_no_explicit_discovery_targets_are_given() {
    let auto_targets = vec![DiscoveryTarget {
        requested: "wlan0:192.168.0.0/24".to_string(),
        scan_address: "192.168.0.255".to_string(),
    }];
    let targets = discovery_scan_targets_with_auto(&[], &[], auto_targets.clone()).unwrap();

    assert_eq!(targets, auto_targets);
}

#[test]
fn falls_back_to_limited_broadcast_when_no_auto_targets_are_available() {
    let targets = discovery_scan_targets_with_auto(&[], &[], Vec::new()).unwrap();

    assert_eq!(targets.len(), 1);
    assert_eq!(targets[0].requested, "255.255.255.255");
    assert_eq!(targets[0].scan_address, "255.255.255.255");
}

#[test]
fn builds_add_candidates_for_supported_unconfigured_discovered_devices() {
    let config = Config::default();
    let devices = vec![discovered_plug("192.168.0.40", "Lights")];
    let candidates = discovery_add_candidates(&config, &devices);

    assert_eq!(candidates.len(), 1);
    assert_eq!(candidates[0].name, "lights");
    assert_eq!(candidates[0].ip, "192.168.0.40".parse::<IpAddr>().unwrap());
    assert_eq!(candidates[0].model, DeviceModel::P110);
    assert_eq!(
        candidates[0].label,
        "Lights (P110) at 192.168.0.40 -> lights"
    );
}

#[test]
fn skips_unsupported_and_already_configured_discovered_devices() {
    let mut config = Config::default();
    add_device(
        &mut config,
        "lights".to_string(),
        plug("192.168.0.40"),
        false,
    )
    .unwrap();
    let devices = vec![
        discovered_plug("192.168.0.40", "Lights"),
        DiscoveredDevice {
            ip: "192.168.0.50".parse().unwrap(),
            model: "L530".to_string(),
            nickname: "Lamp".to_string(),
            device_type: "Bulb".to_string(),
            supported_model: None,
        },
    ];

    assert!(discovery_add_candidates(&config, &devices).is_empty());
}

#[test]
fn reserves_candidate_names_to_avoid_selection_collisions() {
    let config = Config::default();
    let devices = vec![
        discovered_plug("192.168.0.40", "Plug"),
        discovered_plug("192.168.0.41", "Plug"),
    ];
    let candidates = discovery_add_candidates(&config, &devices);

    assert_eq!(candidates[0].name, "plug");
    assert_eq!(candidates[1].name, "plug-2");
}

#[test]
fn adds_selected_discovery_candidates() {
    let mut config = Config::default();
    let devices = vec![
        discovered_plug("192.168.0.40", "Lights"),
        discovered_plug("192.168.0.105", "Server"),
    ];
    let candidates = discovery_add_candidates(&config, &devices);
    let added_names = add_discovery_candidates(&mut config, &candidates, &[1]).unwrap();

    assert_eq!(added_names, vec!["server".to_string()]);
    assert!(!config.devices.contains_key("lights"));
    assert_eq!(
        config.devices.get("server").unwrap().ip,
        "192.168.0.105".parse::<IpAddr>().unwrap()
    );
}
