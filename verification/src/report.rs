//! The lines that the command line prints.
use vstd::prelude::*;
use vstd::string::StringExecFns;

use crate::address;
use crate::devices;
use crate::devices::DeviceConfig;
use crate::discovery;
use crate::discovery::{DiscoveredDevice, DiscoveredDeviceView, DiscoverySession};
use crate::error;
use crate::model;
use crate::numeral;
use crate::registry::Config;
use crate::snapshot::PlugInfo;
use crate::targets::{DiscoveryTarget, DiscoveryTargetView};
use crate::text;

verus! {

/// The characters of each line.
pub open spec fn line_texts(lines: Seq<String>) -> Seq<Seq<char>> {
    lines.map_values(|l: String| l@)
}

/// How a power state reads.
pub open spec fn on_or_off(on: bool) -> Seq<char> {
    if on {
        "on"@
    } else {
        "off"@
    }
}

/// How a power state reads.
fn state_word(on: bool) -> (r: &'static str)
    ensures
        r@ == on_or_off(on),
{
    if on {
        "on"
    } else {
        "off"
    }
}

/// A line about the power state of a device.
pub fn power_line(name: &str, on: bool) -> (r: String)
    ensures
        r@ == name@ + " is "@ + on_or_off(on) + "."@,
{
    let mut out = name.to_owned();
    out.append(" is ");
    out.append(state_word(on));
    out.append(".");
    out
}

/// A line about a device that the credentials work with.
pub fn auth_check_line(name: &str, info: &PlugInfo) -> (r: String)
    ensures
        r@ == "auth ok: "@ + name@ + "\t"@ + info.ip@ + "\t"@ + info.model@ + "\t"@ + info.nickname@
            + "\t"@ + on_or_off(info.device_on),
{
    let mut out = "auth ok: ".to_owned();
    out.append(name);
    out.append("\t");
    out.append(&info.ip);
    out.append("\t");
    out.append(&info.model);
    out.append("\t");
    out.append(&info.nickname);
    out.append("\t");
    out.append(state_word(info.device_on));
    out
}

/// A line about a device that was put into the registry.
pub fn configured_line(name: &str, device: &DeviceConfig) -> (r: String)
    ensures
        r@ == "Configured "@ + name@ + " at "@ + address::ip_text(device.ip) + " as "@
            + model::model_text(device.model) + "."@,
{
    let mut out = "Configured ".to_owned();
    out.append(name);
    out.append(" at ");
    device.ip.push_text(&mut out);
    out.append(" as ");
    out.append(&device.model.to_string());
    out.append(".");
    out
}

/// A line about a device that was taken out of the registry.
pub fn removed_line(name: &str) -> (r: String)
    ensures
        r@ == error::between("Removed "@, name@, "."@),
{
    let mut out = "Removed ".to_owned();
    out.append(name);
    out.append(".");
    out
}

/// A line about a discovered device that was put into the registry.
pub fn added_line(name: &str) -> (r: String)
    ensures
        r@ == error::between("Added "@, name@, "."@),
{
    let mut out = "Added ".to_owned();
    out.append(name);
    out.append(".");
    out
}

/// A line about the account that was stored.
pub fn stored_line(username: &str) -> (r: String)
    ensures
        r@ == error::between("Stored credentials for "@, username@, "."@),
{
    let mut out = "Stored credentials for ".to_owned();
    out.append(username);
    out.append(".");
    out
}

/// How a device reads in the list.
pub open spec fn entry_text(name: Seq<char>, device: DeviceConfig) -> Seq<char> {
    name + "\t"@ + address::ip_text(device.ip) + "\t"@ + model::model_text(device.model)
}

/// The lines of a list of the devices, by name.
pub open spec fn listing_texts(devices: Map<Seq<char>, DeviceConfig>) -> Seq<Seq<char>> {
    if devices == Map::<Seq<char>, DeviceConfig>::empty() {
        seq![
            "No devices configured. Add one with `tapoctl devices add NAME --ip 192.168.1.50 --model p110`."@,
        ]
    } else {
        devices::listing(devices).map_values(|n: Seq<char>| entry_text(n, devices[n]))
    }
}

/// The lines of a list of the devices, by name.
pub fn listing_lines(config: &Config) -> (r: Vec<String>)
    ensures
        line_texts(r@) == listing_texts(config@.devices),
{
    let mut lines: Vec<String> = Vec::new();
    if config.devices.is_empty() {
        lines.push(
            "No devices configured. Add one with `tapoctl devices add NAME --ip 192.168.1.50 --model p110`.".to_owned(),
        );
        proof {
            assert(line_texts(lines@) =~= listing_texts(config@.devices));
        }
        return lines;
    }
    let count = config.devices.len();
    let ghost all = listing_texts(config@.devices);
    let ghost names = devices::listing(config@.devices);
    let mut i: usize = 0;
    while i < count
        invariant
            i <= count,
            count == config.devices.names().len(),
            names == config.devices.names(),
            all == names.map_values(|n: Seq<char>| entry_text(n, config@.devices[n])),
            line_texts(lines@) == all.take(i as int),
        decreases count - i,
    {
        let (name, device) = config.devices.entry(i);
        let mut out = name.clone();
        out.append("\t");
        device.ip.push_text(&mut out);
        out.append("\t");
        out.append(&device.model.to_string());
        let ghost before = lines@;
        lines.push(out);
        proof {
            assert(line_texts(lines@) =~= line_texts(before).push(out@));
            assert(out@ == all[i as int]);
            assert(all.take(i + 1) =~= all.take(i as int).push(all[i as int]));
        }
        i += 1;
    }
    proof {
        assert(all.take(all.len() as int) =~= all);
    }
    lines
}

/// A line about the start of a scan.
pub fn scan_start_line(target_count: usize) -> (r: String)
    ensures
        r@ == error::between(
            "Starting Tapo discovery scan against "@,
            numeral::decimal(target_count as nat),
            " target(s)."@,
        ),
{
    let mut out = "Starting Tapo discovery scan against ".to_owned();
    numeral::push_number(&mut out, target_count as u128, 10);
    out.append(" target(s).");
    out
}

/// What was asked for and the address that stands for it.
pub open spec fn target_text(target: DiscoveryTargetView) -> Seq<char> {
    target.requested + " ("@ + target.scan_address + ")"@
}

/// A line about the target that is scanned.
pub fn scan_line(target: &DiscoveryTarget) -> (r: String)
    ensures
        r@ == "Scanning "@ + (if target.requested@ == target.scan_address@ {
            target.scan_address@
        } else {
            target_text(target@)
        }),
{
    let mut out = "Scanning ".to_owned();
    if text::same_text(&target.requested, &target.scan_address) {
        out.append(&target.scan_address);
    } else {
        out.append(&target.requested);
        out.append(" (");
        out.append(&target.scan_address);
        out.append(")");
        proof {
            assert(out@ =~= "Scanning "@ + target_text(target@));
        }
    }
    out
}

/// What is said of a target whose scan could not be started.
pub fn start_failure(target: &DiscoveryTarget) -> (r: String)
    ensures
        r@ == "failed to start discovery for "@ + target_text(target@),
{
    let mut out = "failed to start discovery for ".to_owned();
    out.append(&target.requested);
    out.append(" (");
    out.append(&target.scan_address);
    out.append(")");
    proof {
        assert(out@ =~= "failed to start discovery for "@ + target_text(target@));
    }
    out
}

/// What is said of a target with an answer that could not be read.
pub fn response_failure(target: &DiscoveryTarget) -> (r: String)
    ensures
        r@ == "failed to read discovery response from "@ + target.scan_address@,
{
    let mut out = "failed to read discovery response from ".to_owned();
    out.append(&target.scan_address);
    out
}

/// A line about an address that a scan met an error at.
fn discovery_error_line(ip: &str, source: &str) -> (r: String)
    ensures
        r@ == "Discovery error for "@ + ip@ + ": "@ + source@,
{
    let mut out = "Discovery error for ".to_owned();
    out.append(ip);
    out.append(": ");
    out.append(source);
    out
}

/// The line about an address that a scan met an error at, where errors are asked for.
pub fn shown_error_line(show_errors: bool, ip: &str, source: &str) -> (r: Option<String>)
    ensures
        r is Some == show_errors,
        r matches Some(line) ==> line@ == "Discovery error for "@ + ip@ + ": "@ + source@,
{
    if show_errors {
        Some(discovery_error_line(ip, source))
    } else {
        None
    }
}

/// What is said of a discovered device.
pub open spec fn device_texts(device: DiscoveredDeviceView) -> Seq<Seq<char>> {
    seq![
        "Tapo scan report for "@ + address::ip_text(device.ip),
        "  Model: "@ + device.model,
        "  Type: "@ + device.device_type,
        "  Nickname: "@ + device.nickname,
        match device.supported_model {
            Some(m) => "  Control: supported as "@ + model::model_text(m),
            None => "  Control: unsupported"@,
        },
    ]
}

/// The text of a label and of what it labels.
fn labelled(label: &str, value: &str) -> (r: String)
    ensures
        r@ == label@ + value@,
{
    let mut out = label.to_owned();
    out.append(value);
    out
}

/// The lines about a discovered device.
pub fn discovered_device_lines(device: &DiscoveredDevice) -> (r: Vec<String>)
    ensures
        line_texts(r@) == device_texts(device@),
{
    let mut lines: Vec<String> = Vec::new();
    lines.push(labelled("Tapo scan report for ", &device.ip.to_string()));
    lines.push(labelled("  Model: ", &device.model));
    lines.push(labelled("  Type: ", &device.device_type));
    lines.push(labelled("  Nickname: ", &device.nickname));
    lines.push(
        match device.supported_model {
            Some(m) => labelled("  Control: supported as ", &m.to_string()),
            None => "  Control: unsupported".to_owned(),
        },
    );
    proof {
        assert(line_texts(lines@) =~= device_texts(device@));
    }
    lines
}

/// A line about candidates that nobody was asked about.
pub fn hint_line(candidate_count: usize) -> (r: String)
    ensures
        r@ == error::between(
            "Found "@,
            numeral::decimal(candidate_count as nat),
            " supported unconfigured device(s). Re-run with --add-supported or run in an interactive terminal to select them."@,
        ),
{
    let mut out = "Found ".to_owned();
    numeral::push_number(&mut out, candidate_count as u128, 10);
    out.append(
        " supported unconfigured device(s). Re-run with --add-supported or run in an interactive terminal to select them.",
    );
    out
}

/// What is said at the end of a scan.
pub open spec fn summary_texts(
    targets: nat,
    devices: Seq<DiscoveredDeviceView>,
    added: nat,
    errors: nat,
    show_errors: bool,
) -> Seq<Seq<char>> {
    let none = if devices.len() == 0 {
        seq!["No Tapo devices discovered."@]
    } else {
        Seq::<Seq<char>>::empty()
    };
    let counts = "Discovery complete: "@ + numeral::decimal(targets) + " target(s) scanned, "@
        + numeral::decimal(devices.len()) + " unique device response(s), "@ + numeral::decimal(
        discovery::supported_in(devices),
    ) + " supported, "@ + numeral::decimal(added) + " added, "@ + numeral::decimal(errors)
        + " error(s)."@;
    let advice = if errors > 0 && !show_errors {
        seq!["Run again with --show-errors to print per-address discovery errors."@]
    } else {
        Seq::<Seq<char>>::empty()
    };
    none + seq![counts] + advice
}

/// The lines at the end of a scan.
pub fn summary_lines(
    target_count: usize,
    session: &DiscoverySession,
    added_count: usize,
    show_errors: bool,
) -> (r: Vec<String>)
    ensures
        line_texts(r@) == summary_texts(
            target_count as nat,
            session@.devices,
            added_count as nat,
            session@.errors,
            show_errors,
        ),
{
    let mut lines: Vec<String> = Vec::new();
    let discovered = session.devices().len();
    let errors = session.error_count();
    if discovered == 0 {
        lines.push("No Tapo devices discovered.".to_owned());
    }
    let mut out = "Discovery complete: ".to_owned();
    numeral::push_number(&mut out, target_count as u128, 10);
    out.append(" target(s) scanned, ");
    numeral::push_number(&mut out, discovered as u128, 10);
    out.append(" unique device response(s), ");
    numeral::push_number(&mut out, session.supported_count() as u128, 10);
    out.append(" supported, ");
    numeral::push_number(&mut out, added_count as u128, 10);
    out.append(" added, ");
    numeral::push_number(&mut out, errors as u128, 10);
    out.append(" error(s).");
    lines.push(out);
    if errors > 0 && !show_errors {
        lines.push(
            "Run again with --show-errors to print per-address discovery errors.".to_owned(),
        );
    }
    proof {
        assert(line_texts(lines@) =~= summary_texts(
            target_count as nat,
            session@.devices,
            added_count as nat,
            session@.errors,
            show_errors,
        ));
    }
    lines
}

// Laws

/// A plug that is on reads `on`, and one that is off `off`.
pub proof fn law_power_words()
    ensures
        on_or_off(true) == "on"@,
        on_or_off(false) == "off"@,
{
}

/// The list has a line for every device, in the order of their names, with the name, the address and
/// the model between tabs; a list of no devices says how to add one.
pub proof fn law_listing_lines(names: Seq<Seq<char>>, devices: Map<Seq<char>, DeviceConfig>)
    requires
        devices::is_listing(names, devices),
    ensures
        names.len() == 0 ==> listing_texts(devices) == seq![
            "No devices configured. Add one with `tapoctl devices add NAME --ip 192.168.1.50 --model p110`."@,
        ],
        names.len() > 0 ==> listing_texts(devices).len() == names.len() && forall|i: int|
            0 <= i < names.len() ==> #[trigger] listing_texts(devices)[i] == names[i] + "\t"@
                + address::ip_text(devices[names[i]].ip) + "\t"@ + model::model_text(
                devices[names[i]].model,
            ),
{
    devices::law_listing_is_unique(names, devices::listing(devices), devices);
    if names.len() == 0 {
        assert(names.to_set() =~= Set::empty());
        assert(devices =~= Map::<Seq<char>, DeviceConfig>::empty());
    } else {
        assert(names.to_set().contains(names[0]));
        assert(devices.contains_key(names[0]));
    }
}

/// A target reads as what was asked for and, in brackets, the address that stands for it.
pub proof fn law_target_text(target: DiscoveryTargetView)
    ensures
        target_text(target) == target.requested + " ("@ + target.scan_address + ")"@,
{
}

/// Five lines are said of a discovered device: its address, its model, its type, its nickname, and
/// whether it can be controlled and as what.
pub proof fn law_lines_about_a_device(device: DiscoveredDeviceView)
    ensures
        device_texts(device).len() == 5,
        device_texts(device)[0] == "Tapo scan report for "@ + address::ip_text(device.ip),
        device_texts(device)[1] == "  Model: "@ + device.model,
        device_texts(device)[2] == "  Type: "@ + device.device_type,
        device_texts(device)[3] == "  Nickname: "@ + device.nickname,
        device.supported_model matches Some(m) ==> device_texts(device)[4]
            == "  Control: supported as "@ + model::model_text(m),
        device.supported_model is None ==> device_texts(device)[4] == "  Control: unsupported"@,
{
}

/// The end of a scan is one line with the five counts; before it stands a line where no device was
/// found, and after it one where there were errors that were not shown.
pub proof fn law_lines_at_the_end(
    targets: nat,
    devices: Seq<DiscoveredDeviceView>,
    added: nat,
    errors: nat,
    show_errors: bool,
)
    ensures
        ({
            let lines = summary_texts(targets, devices, added, errors, show_errors);
            let first = if devices.len() == 0 {
                1int
            } else {
                0int
            };
            let advice = errors > 0 && !show_errors;
            &&& lines.len() == first + 1 + (if advice {
                1int
            } else {
                0int
            })
            &&& devices.len() == 0 ==> lines[0] == "No Tapo devices discovered."@
            &&& lines[first] == "Discovery complete: "@ + numeral::decimal(targets)
                + " target(s) scanned, "@ + numeral::decimal(devices.len())
                + " unique device response(s), "@ + numeral::decimal(
                devices.filter(|d: DiscoveredDeviceView| d.supported_model is Some).len(),
            ) + " supported, "@ + numeral::decimal(added) + " added, "@ + numeral::decimal(errors)
                + " error(s)."@
            &&& advice ==> lines[first + 1]
                == "Run again with --show-errors to print per-address discovery errors."@
        }),
{
    discovery::law_supported_devices_are_counted(devices);
}

/// The view of lines shows each as it is.
pub proof fn law_lines_show_their_texts(lines: Seq<String>)
    ensures
        line_texts(lines).len() == lines.len(),
        forall|i: int| 0 <= i < lines.len() ==> #[trigger] line_texts(lines)[i] == lines[i]@,
{
}

} // verus!
