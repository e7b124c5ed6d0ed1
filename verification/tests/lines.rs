use tapoctl::discovery::DiscoveryReport;
use tapoctl::location::{config_file, config_location, ConfigLocation};
use tapoctl::report::{
    added_line, auth_check_line, configured_line, discovered_device_lines, hint_line,
    listing_lines, power_line, removed_line, response_failure, scan_line,
    scan_start_line, shown_error_line, start_failure, stored_line, summary_lines,
};
use tapoctl::snapshot::PlugInfo;
use tapoctl::{
    add_device, Config, DeviceConfig, DeviceModel, DiscoverySession, DiscoveryTarget, Error,
};

fn target(requested: &str, scan_address: &str) -> DiscoveryTarget {
    DiscoveryTarget {
        requested: requested.to_string(),
        scan_address: scan_address.to_string(),
    }
}

fn plug(ip: &str, model: DeviceModel) -> DeviceConfig {
    DeviceConfig { ip: ip.parse().unwrap(), model }
}

fn report(ip: &str, model: &str) -> DiscoveryReport {
    DiscoveryReport {
        ip: ip.to_string(),
        model: model.to_string(),
        nickname: "Desk".to_string(),
        device_type: "Plug".to_string(),
    }
}

#[test]
fn lines_about_single_devices() {
    assert_eq!(power_line("desk", true), "desk is on.");
    assert_eq!(power_line("desk", false), "desk is off.");
    assert_eq!(removed_line("desk"), "Removed desk.");
    assert_eq!(added_line("desk"), "Added desk.");
    assert_eq!(stored_line("you@example.com"), "Stored credentials for you@example.com.");
    assert_eq!(
        configured_line("desk", &plug("192.168.1.50", DeviceModel::P110)),
        "Configured desk at 192.168.1.50 as p110."
    );
    let info = PlugInfo {
        ip: "192.168.1.50".to_string(),
        model: "P110".to_string(),
        nickname: "Desk Plug".to_string(),
        device_type: "SMART.TAPOPLUG".to_string(),
        device_on: false,
        on_time: 0,
    };
    assert_eq!(
        auth_check_line("desk", &info),
        "auth ok: desk\t192.168.1.50\tP110\tDesk Plug\toff"
    );
}

#[test]
fn devices_are_listed_by_name() {
    let mut config = Config::default();
    assert_eq!(
        listing_lines(&config),
        ["No devices configured. Add one with `tapoctl devices add NAME --ip 192.168.1.50 --model p110`."]
    );
    add_device(&mut config, "b".to_string(), plug("10.0.0.2", DeviceModel::P100), false).unwrap();
    add_device(&mut config, "a".to_string(), plug("fe80::1", DeviceModel::P115), false).unwrap();
    assert_eq!(listing_lines(&config), ["a\tfe80::1\tp115", "b\t10.0.0.2\tp100"]);
}

#[test]
fn lines_about_targets() {
    assert_eq!(scan_start_line(12), "Starting Tapo discovery scan against 12 target(s).");
    assert_eq!(scan_line(&target("10.0.0.1", "10.0.0.1")), "Scanning 10.0.0.1");
    let subnet = target("10.0.0.0/8", "10.255.255.255");
    assert_eq!(scan_line(&subnet), "Scanning 10.0.0.0/8 (10.255.255.255)");
    assert_eq!(
        start_failure(&subnet),
        "failed to start discovery for 10.0.0.0/8 (10.255.255.255)"
    );
    assert_eq!(
        response_failure(&subnet),
        "failed to read discovery response from 10.255.255.255"
    );
    assert_eq!(
        shown_error_line(true, "10.0.0.1", "timed out").unwrap(),
        "Discovery error for 10.0.0.1: timed out"
    );
    assert_eq!(shown_error_line(false, "10.0.0.1", "timed out"), None);
}

#[test]
fn lines_about_discovered_devices() {
    let mut session = DiscoverySession::default();
    session.record_report(&report("10.0.0.1", "P110M")).unwrap();
    session.record_report(&report("10.0.0.2", "L530")).unwrap();
    assert_eq!(
        discovered_device_lines(&session.devices()[0]),
        [
            "Tapo scan report for 10.0.0.1",
            "  Model: P110M",
            "  Type: Plug",
            "  Nickname: Desk",
            "  Control: supported as p110",
        ]
    );
    assert_eq!(
        discovered_device_lines(&session.devices()[1])[4],
        "  Control: unsupported"
    );
    assert_eq!(
        hint_line(2),
        "Found 2 supported unconfigured device(s). Re-run with --add-supported or run in an interactive terminal to select them."
    );
}

#[test]
fn lines_at_the_end_of_a_scan() {
    let mut session = DiscoverySession::new();
    assert_eq!(
        summary_lines(1, &session, 0, false),
        [
            "No Tapo devices discovered.",
            "Discovery complete: 1 target(s) scanned, 0 unique device response(s), 0 supported, 0 added, 0 error(s).",
        ]
    );
    session.record_report(&report("10.0.0.1", "P110")).unwrap();
    session.record_report(&report("10.0.0.2", "L530")).unwrap();
    session.record_error();
    assert_eq!(
        summary_lines(3, &session, 1, false),
        [
            "Discovery complete: 3 target(s) scanned, 2 unique device response(s), 1 supported, 1 added, 1 error(s).",
            "Run again with --show-errors to print per-address discovery errors.",
        ]
    );
    assert_eq!(summary_lines(3, &session, 1, true).len(), 1);
}

#[test]
fn the_configuration_is_kept_where_the_environment_says() {
    assert_eq!(config_location(true, true, true), Ok(ConfigLocation::Override));
    assert_eq!(config_location(false, true, true), Ok(ConfigLocation::XdgConfigHome));
    assert_eq!(config_location(false, true, false), Ok(ConfigLocation::XdgConfigHome));
    assert_eq!(config_location(false, false, true), Ok(ConfigLocation::Home));
    assert_eq!(config_file(ConfigLocation::Override), None);
    assert_eq!(config_file(ConfigLocation::XdgConfigHome), Some("tapoctl/config.toml"));
    assert_eq!(config_file(ConfigLocation::Home), Some(".config/tapoctl/config.toml"));
    let error = config_location(false, false, false).unwrap_err();
    assert_eq!(error, Error::NoHome);
    assert_eq!(
        error.to_string(),
        "HOME is not set and TAPOCTL_CONFIG was not provided"
    );
}
