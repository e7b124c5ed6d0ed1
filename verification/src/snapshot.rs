//! The state of a plug as it was read.
use vstd::prelude::*;

use crate::address::IpAddr;
use crate::devices::DeviceConfig;
use crate::error;
use crate::error::{Error, ErrorView};
use crate::model;
use crate::model::DeviceModel;

verus! {

/// What a plug tells of itself.
#[derive(Debug, Clone, PartialEq, Eq)]
pub struct PlugInfo {
    pub ip: String,
    pub model: String,
    pub nickname: String,
    pub device_type: String,
    pub device_on: bool,
    pub on_time: u64,
}

/// What a plug that measures energy tells of its use.
#[derive(Debug, Clone, Copy, PartialEq, Eq)]
pub struct EnergyReadings {
    /// The power in watts.
    pub current_power: u64,
    /// The power in milliwatts, where it is reported.
    pub usage_power: Option<u64>,
    pub today_energy: u64,
    pub month_energy: u64,
    pub today_runtime: u64,
    pub month_runtime: u64,
}

/// What a plug uses.
#[derive(Debug, Clone, Copy, PartialEq, Eq)]
pub struct EnergySnapshot {
    pub current_power_mw: Option<u64>,
    pub current_power_w: Option<u64>,
    pub today_energy_wh: u64,
    pub month_energy_wh: u64,
    pub today_runtime_minutes: u64,
    pub month_runtime_minutes: u64,
}

/// The state of a plug.
#[derive(Debug, Clone, PartialEq, Eq)]
pub struct DeviceSnapshot {
    pub ip: IpAddr,
    pub model: DeviceModel,
    pub device_model: String,
    pub nickname: String,
    pub device_type: String,
    pub device_on: bool,
    pub on_time_seconds: u64,
    pub energy: Option<EnergySnapshot>,
}

/// The state of a plug with its texts as sequences of characters.
pub struct DeviceSnapshotView {
    pub ip: IpAddr,
    pub model: DeviceModel,
    pub device_model: Seq<char>,
    pub nickname: Seq<char>,
    pub device_type: Seq<char>,
    pub device_on: bool,
    pub on_time_seconds: u64,
    pub energy: Option<EnergySnapshot>,
}

impl View for DeviceSnapshot {
    type V = DeviceSnapshotView;

    open spec fn view(&self) -> DeviceSnapshotView {
        DeviceSnapshotView {
            ip: self.ip,
            model: self.model,
            device_model: self.device_model@,
            nickname: self.nickname@,
            device_type: self.device_type@,
            device_on: self.device_on,
            on_time_seconds: self.on_time_seconds,
            energy: self.energy,
        }
    }
}

/// What the readings say of the use of a plug.
pub open spec fn energy_of(readings: EnergyReadings) -> EnergySnapshot {
    EnergySnapshot {
        current_power_mw: readings.usage_power,
        current_power_w: Some(readings.current_power),
        today_energy_wh: readings.today_energy,
        month_energy_wh: readings.month_energy,
        today_runtime_minutes: readings.today_runtime,
        month_runtime_minutes: readings.month_runtime,
    }
}

/// The state of a plug: where and what it is by the registry, what it tells of itself, and its use
/// where it measures it. The use is read of exactly the plugs that measure energy.
pub fn device_snapshot(
    device: &DeviceConfig,
    info: PlugInfo,
    readings: Option<EnergyReadings>,
) -> (r: DeviceSnapshot)
    requires
        readings is Some == model::measures_energy(device.model),
    ensures
        r@.energy is Some <==> model::measures_energy(device.model),
        r.ip == device.ip,
        r.model == device.model,
        r.device_model@ == info.model@,
        r.nickname@ == info.nickname@,
        r.device_type@ == info.device_type@,
        r.device_on == info.device_on,
        r.on_time_seconds == info.on_time,
        r.energy is Some == readings is Some,
        readings matches Some(e) ==> (r.energy matches Some(s) && {
            &&& s.current_power_mw == e.usage_power
            &&& s.current_power_w == Some(e.current_power)
            &&& s.today_energy_wh == e.today_energy
            &&& s.month_energy_wh == e.month_energy
            &&& s.today_runtime_minutes == e.today_runtime
            &&& s.month_runtime_minutes == e.month_runtime
        }),
        r@ == (DeviceSnapshotView {
            ip: device.ip,
            model: device.model,
            device_model: info.model@,
            nickname: info.nickname@,
            device_type: info.device_type@,
            device_on: info.device_on,
            on_time_seconds: info.on_time,
            energy: match readings {
                Some(e) => Some(energy_of(e)),
                None => None,
            },
        }),
{
    DeviceSnapshot {
        ip: device.ip,
        model: device.model,
        device_model: info.model,
        nickname: info.nickname,
        device_type: info.device_type,
        device_on: info.device_on,
        on_time_seconds: info.on_time,
        energy: match readings {
            Some(e) => Some(
                EnergySnapshot {
                    current_power_mw: e.usage_power,
                    current_power_w: Some(e.current_power),
                    today_energy_wh: e.today_energy,
                    month_energy_wh: e.month_energy,
                    today_runtime_minutes: e.today_runtime,
                    month_runtime_minutes: e.month_runtime,
                },
            ),
            None => None,
        },
    }
}

/// Accepts the plugs that measure energy.
pub fn require_energy_monitoring(device: &DeviceConfig) -> (r: Result<(), Error>)
    ensures
        error::outcome(r) == (if model::measures_energy(device.model) {
            Ok(())
        } else {
            Err(ErrorView::NoEnergyMonitoring { plug: device.model, address: device.ip })
        }),
{
    if device.model.has_energy_monitoring() {
        Ok(())
    } else {
        Err(Error::NoEnergyMonitoring { plug: device.model, address: device.ip })
    }
}

/// The power state that toggling leads to.
pub fn toggled(device_on: bool) -> (r: bool)
    ensures
        r == !device_on,
{
    !device_on
}

// Laws

/// Every figure that a plug reports of its use comes out as it went in.
pub proof fn law_readings_are_kept(readings: EnergyReadings)
    ensures
        energy_of(readings).current_power_mw == readings.usage_power,
        energy_of(readings).current_power_w == Some(readings.current_power),
        energy_of(readings).today_energy_wh == readings.today_energy,
        energy_of(readings).month_energy_wh == readings.month_energy,
        energy_of(readings).today_runtime_minutes == readings.today_runtime,
        energy_of(readings).month_runtime_minutes == readings.month_runtime,
{
}

/// Plugs with the same use have the same readings: none of the figures is lost.
pub proof fn law_readings_can_be_told_apart(a: EnergyReadings, b: EnergyReadings)
    requires
        energy_of(a) == energy_of(b),
    ensures
        a == b,
{
}

/// The view of a plug's state shows its fields as they are.
pub proof fn law_snapshot_shows_its_fields(s: DeviceSnapshot)
    ensures
        s@.ip == s.ip,
        s@.model == s.model,
        s@.device_model == s.device_model@,
        s@.nickname == s.nickname@,
        s@.device_type == s.device_type@,
        s@.device_on == s.device_on,
        s@.on_time_seconds == s.on_time_seconds,
        s@.energy == s.energy,
{
}

} // verus!
