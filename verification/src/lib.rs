//! Control of Tapo smart plugs on the local network: a registry of named plugs, the targets of a
//! discovery scan, and the naming of what a scan finds.
pub mod address;
pub mod candidates;
pub mod controller;
pub mod devices;
pub mod discovery;
pub mod error;
pub mod history;
pub mod ipv4;
pub mod ipv6;
pub mod location;
pub mod model;
pub mod naming;
pub mod numeral;
pub mod registry;
pub mod report;
pub mod snapshot;
pub mod subnet;
pub mod targets;
pub mod text;

pub use crate::address::IpAddr;
pub use crate::candidates::{
    add_discovery_candidates, discovery_add_candidates, DiscoveryAddCandidate,
};
pub use crate::controller::{TapoController, TapoCredentials};
pub use crate::devices::{DeviceConfig, DeviceMap};
pub use crate::discovery::{
    discovered_device_from_result, DiscoveredDevice, DiscoveryReport, DiscoverySession,
};
pub use crate::error::Error;
pub use crate::history::{
    EnergyHistory, EnergyHistoryEntry, EnergyHistoryInterval, PowerHistory, PowerHistoryEntry,
    PowerHistoryInterval,
};
pub use crate::ipv4::Ipv4Addr;
pub use crate::ipv6::Ipv6Addr;
pub use crate::model::{supported_device_model, DeviceModel};
pub use crate::naming::discovered_device_name;
pub use crate::registry::{add_device, get_device, remove_device, validate_device_name, Config};
pub use crate::snapshot::{DeviceSnapshot, EnergySnapshot};
pub use crate::subnet::{
    automatic_discovery_targets, discovery_targets_from_local_ipv4_networks, LocalIpv4Network,
};
pub use crate::targets::{
    discovery_scan_targets, discovery_scan_targets_with_auto, DiscoveryTarget,
};
