use chrono::{DateTime, NaiveDate};
use tapoctl::history::{
    energy_history, is_calendar_date, is_energy_interval, is_power_interval, power_history,
    CalendarDate, EnergyReading, EnergyReport, LocalInstant, PowerReading, PowerReport, UtcInstant,
};
use tapoctl::snapshot::{
    device_snapshot, require_energy_monitoring, toggled, EnergyReadings, PlugInfo,
};
use tapoctl::{
    DeviceConfig, DeviceModel, EnergyHistoryInterval, EnergySnapshot, Error, IpAddr,
    PowerHistoryInterval, TapoController, TapoCredentials,
};

fn device(model: DeviceModel) -> DeviceConfig {
    DeviceConfig { ip: "192.168.1.50".parse().unwrap(), model }
}

fn info() -> PlugInfo {
    PlugInfo {
        ip: "192.168.1.51".to_string(),
        model: "P110".to_string(),
        nickname: "Desk".to_string(),
        device_type: "SMART.TAPOPLUG".to_string(),
        device_on: true,
        on_time: 17,
    }
}

fn credentials() -> TapoCredentials {
    TapoCredentials {
        username: "you@example.com".to_string(),
        password: "tapo-password".to_string(),
    }
}

#[test]
fn controllers_wait_half_a_minute_unless_told_otherwise() {
    assert_eq!(
        TapoController::new(credentials()),
        TapoController::with_timeout(credentials(), 30)
    );
    assert_ne!(
        TapoController::new(credentials()),
        TapoController::with_timeout(credentials(), 5)
    );
}

#[test]
fn clients_carry_the_account_and_the_timeout() {
    let client = TapoController::with_timeout(credentials(), 5).client();
    let shown = format!("{client:?}");
    assert!(shown.contains("you@example.com"));
    assert!(shown.contains("timeout: Some(5s)"));
    let default = format!("{:?}", TapoController::new(credentials()).client());
    assert!(default.contains("timeout: Some(30s)"));
}

#[test]
fn snapshots_go_by_the_registry_and_by_the_plug() {
    let snapshot = device_snapshot(&device(DeviceModel::P100), info(), None);
    assert_eq!(snapshot.ip, "192.168.1.50".parse::<IpAddr>().unwrap());
    assert_eq!(snapshot.model, DeviceModel::P100);
    assert_eq!(snapshot.device_model, "P110");
    assert_eq!(snapshot.nickname, "Desk");
    assert_eq!(snapshot.device_type, "SMART.TAPOPLUG");
    assert!(snapshot.device_on);
    assert_eq!(snapshot.on_time_seconds, 17);
    assert_eq!(snapshot.energy, None);
}

#[test]
fn snapshots_of_measuring_plugs_hold_their_use() {
    let readings = EnergyReadings {
        current_power: 12,
        usage_power: Some(12345),
        today_energy: 3,
        month_energy: 40,
        today_runtime: 5,
        month_runtime: 600,
    };
    let snapshot = device_snapshot(&device(DeviceModel::P110), info(), Some(readings));
    assert_eq!(
        snapshot.energy,
        Some(EnergySnapshot {
            current_power_mw: Some(12345),
            current_power_w: Some(12),
            today_energy_wh: 3,
            month_energy_wh: 40,
            today_runtime_minutes: 5,
            month_runtime_minutes: 600,
        })
    );
}

#[test]
fn plugs_without_energy_monitoring_have_no_history() {
    for model in [DeviceModel::P110, DeviceModel::P115] {
        assert_eq!(require_energy_monitoring(&device(model)), Ok(()));
    }
    for model in [DeviceModel::P100, DeviceModel::P105] {
        let error = require_energy_monitoring(&device(model)).unwrap_err();
        assert_eq!(
            error,
            Error::NoEnergyMonitoring { plug: model, address: device(model).ip }
        );
        assert_eq!(
            error.to_string(),
            format!("{} at 192.168.1.50 does not support energy monitoring", model.to_string())
        );
    }
}

#[test]
fn toggling_turns_a_plug_over() {
    assert!(toggled(false));
    assert!(!toggled(true));
}

#[test]
fn histories_keep_every_reading_in_order() {
    let at = |seconds: i64| UtcInstant { seconds, nanoseconds: 0 };
    let energy = energy_history(&EnergyReport {
        local_time: LocalInstant { seconds: 99, nanoseconds: 1 },
        start_date_time: at(10),
        interval_length: 60,
        entries: vec![
            EnergyReading { start_date_time: at(10), energy: 7 },
            EnergyReading { start_date_time: at(3610), energy: 0 },
        ],
    });
    assert_eq!(energy.local_time.seconds, 99);
    assert_eq!(energy.start_date_time, at(10));
    assert_eq!(energy.interval_length_minutes, 60);
    assert_eq!(energy.entries.len(), 2);
    assert_eq!(energy.entries[0].energy_wh, 7);
    assert_eq!(energy.entries[1].start_date_time, at(3610));

    let power = power_history(&PowerReport {
        start_date_time: at(10),
        end_date_time: at(610),
        interval_length: 5,
        entries: vec![
            PowerReading { start_date_time: at(10), power: Some(40) },
            PowerReading { start_date_time: at(310), power: None },
        ],
    });
    assert_eq!(power.start_date_time, at(10));
    assert_eq!(power.end_date_time, at(610));
    assert_eq!(power.interval_length_minutes, 5);
    assert_eq!(power.entries[0].power_w, Some(40));
    assert_eq!(power.entries[1].power_w, None);
    assert_eq!(power.entries[1].start_date_time, at(310));
}

fn date(year: i32, month: u32, day: u32) -> CalendarDate {
    CalendarDate { year, month, day }
}

#[test]
fn dates_are_those_of_the_calendar() {
    assert!(is_calendar_date(date(2026, 4, 25)));
    assert!(is_calendar_date(date(2024, 2, 29)));
    assert!(is_calendar_date(date(2000, 2, 29)));
    assert!(!is_calendar_date(date(2026, 2, 29)));
    assert!(!is_calendar_date(date(1900, 2, 29)));
    assert!(!is_calendar_date(date(2026, 2, 31)));
    let years = [
        i32::MIN, -262144, -262143, -401, -400, -100, -4, -1, 0, 1, 4, 1900, 2000, 2023, 2024,
        262142, 262143, i32::MAX,
    ];
    for year in years {
        for month in 0..=13 {
            for day in 0..=32 {
                assert_eq!(
                    is_calendar_date(date(year, month, day)),
                    NaiveDate::from_ymd_opt(year, month, day).is_some(),
                    "{year}-{month}-{day}"
                );
            }
        }
    }
}

#[test]
fn instants_are_those_of_the_clock() {
    let edges = [
        i64::MIN, -8334601228801, -8334601228800, -61, -60, -1, 0, 58, 59, 60, 119, 1777075200,
        8210266876799, 8210266876800, i64::MAX,
    ];
    for seconds in edges {
        for nanoseconds in [0, 999_999_999, 1_000_000_000, 1_999_999_999, 2_000_000_000, u32::MAX] {
            let exists = DateTime::from_timestamp(seconds, nanoseconds).is_some();
            assert_eq!(UtcInstant { seconds, nanoseconds }.exists_in_time(), exists);
            assert_eq!(LocalInstant { seconds, nanoseconds }.exists_in_time(), exists);
        }
    }
}

#[test]
fn intervals_hold_dates_and_times_that_exist() {
    let start_date = date(2026, 4, 25);
    let end_date = date(2026, 5, 1);
    let none = date(2026, 2, 30);
    assert!(is_energy_interval(EnergyHistoryInterval::Hourly { start_date, end_date }));
    assert!(!is_energy_interval(EnergyHistoryInterval::Hourly { start_date, end_date: none }));
    assert!(!is_energy_interval(EnergyHistoryInterval::Hourly { start_date: none, end_date }));
    assert!(is_energy_interval(EnergyHistoryInterval::Daily { start_date }));
    assert!(!is_energy_interval(EnergyHistoryInterval::Daily { start_date: none }));
    assert!(is_energy_interval(EnergyHistoryInterval::Monthly { start_date }));
    assert!(!is_energy_interval(EnergyHistoryInterval::Monthly { start_date: none }));

    let good = UtcInstant { seconds: 1777593600, nanoseconds: 0 };
    let bad = UtcInstant { seconds: 1777593600, nanoseconds: 1_000_000_000 };
    for (start_date_time, end_date_time, whole) in
        [(good, good, true), (good, bad, false), (bad, good, false)]
    {
        assert_eq!(
            is_power_interval(PowerHistoryInterval::Every5Minutes {
                start_date_time,
                end_date_time
            }),
            whole
        );
        assert_eq!(
            is_power_interval(PowerHistoryInterval::Hourly { start_date_time, end_date_time }),
            whole
        );
    }
}
