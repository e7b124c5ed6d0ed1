use std::str::FromStr;

use tapoctl::naming::{lowered_chars, sanitise_device_name, slug_of, unique_device_name};
use tapoctl::registry::{forget_username, store_username, stored_username, validate_password};
use tapoctl::{
    add_device, discovered_device_name, get_device, remove_device, validate_device_name, Config,
    DeviceConfig, DeviceModel, Error, IpAddr,
};

fn address(text: &str) -> IpAddr {
    text.parse().unwrap()
}

fn plug(ip: &str) -> DeviceConfig {
    DeviceConfig { ip: address(ip), model: DeviceModel::P100 }
}

fn with_names(names: &[&str]) -> Config {
    let mut config = Config::default();
    for name in names {
        add_device(&mut config, name.to_string(), plug("10.0.0.1"), false).unwrap();
    }
    config
}

#[test]
fn models_are_trimmed_and_lowered() {
    assert_eq!(DeviceModel::from_str(" \tP115\u{a0}\n").unwrap(), DeviceModel::P115);
    assert_eq!(DeviceModel::from_str("p110m").unwrap(), DeviceModel::P110);
    let error = DeviceModel::from_str("  L530 \u{2003}").unwrap_err();
    assert_eq!(error, Error::UnsupportedModel { model: "l530".to_string() });
    assert_eq!(
        error.to_string(),
        "unsupported model 'l530'. Supported models: p100, p105, p110, p115"
    );
    assert_eq!(error.cause(), None);
    assert!(DeviceModel::from_str("p100m").is_err());
    assert!(DeviceModel::from_str("").is_err());
}

#[test]
fn text_of_a_model_reads_back_as_the_model() {
    for model in [DeviceModel::P100, DeviceModel::P105, DeviceModel::P110, DeviceModel::P115] {
        assert_eq!(DeviceModel::from_str(&model.to_string()).unwrap(), model);
        assert_eq!(
            DeviceModel::from_str(&model.to_string().to_uppercase()).unwrap(),
            model
        );
    }
    assert_eq!(DeviceModel::P105.to_string(), "p105");
}

#[test]
fn some_models_measure_energy() {
    assert!(!DeviceModel::P100.has_energy_monitoring());
    assert!(!DeviceModel::P105.has_energy_monitoring());
    assert!(DeviceModel::P110.has_energy_monitoring());
    assert!(DeviceModel::P115.has_energy_monitoring());
}

#[test]
fn device_names_are_ascii_words() {
    for name in ["a", "Z", "0", "-", "_", "Desk-1_b"] {
        assert_eq!(validate_device_name(name), Ok(()));
    }
    for name in ["", " ", "a b", "d\u{e9}sk", "a/b", "a.b", "\u{212a}"] {
        assert_eq!(validate_device_name(name), Err(Error::InvalidDeviceName));
    }
    assert_eq!(
        Error::InvalidDeviceName.to_string(),
        "device names must contain only ASCII letters, numbers, hyphens, and underscores"
    );
}

#[test]
fn added_devices_are_found_and_others_are_untouched() {
    let mut config = with_names(&["b", "d"]);
    add_device(&mut config, "c".to_string(), plug("10.0.0.9"), false).unwrap();
    assert_eq!(*get_device(&config, "c").unwrap(), plug("10.0.0.9"));
    assert_eq!(*get_device(&config, "b").unwrap(), plug("10.0.0.1"));
    assert_eq!(*get_device(&config, "d").unwrap(), plug("10.0.0.1"));
    assert_eq!(config.devices.len(), 3);
}

#[test]
fn refused_additions_change_nothing() {
    let mut config = with_names(&["desk"]);
    let before = config.clone();
    let taken = add_device(&mut config, "desk".to_string(), plug("10.0.0.2"), false);
    assert_eq!(taken, Err(Error::DeviceExists { name: "desk".to_string() }));
    assert_eq!(
        taken.unwrap_err().to_string(),
        "device 'desk' already exists. Re-run with --replace if this is intentional"
    );
    let invalid = add_device(&mut config, "a b".to_string(), plug("10.0.0.2"), true);
    assert_eq!(invalid, Err(Error::InvalidDeviceName));
    assert_eq!(config, before);
}

#[test]
fn removing_undoes_adding() {
    let mut config = with_names(&["a", "c"]);
    let before = config.clone();
    add_device(&mut config, "b".to_string(), plug("10.0.0.2"), false).unwrap();
    assert_ne!(config, before);
    assert_eq!(remove_device(&mut config, "b"), Ok(plug("10.0.0.2")));
    assert_eq!(config, before);
    assert_eq!(
        remove_device(&mut config, "b"),
        Err(Error::DeviceNotConfigured { name: "b".to_string() })
    );
    assert_eq!(config, before);
    add_device(&mut config, "b".to_string(), plug("10.0.0.3"), false).unwrap();
    assert_eq!(get_device(&config, "b").unwrap().ip, address("10.0.0.3"));
}

#[test]
fn missing_devices_are_reported_by_name() {
    let mut config = Config::default();
    assert_eq!(
        remove_device(&mut config, "desk").unwrap_err().to_string(),
        "device 'desk' is not configured"
    );
    let error = get_device(&config, "desk").unwrap_err();
    assert_eq!(error, Error::UnknownDevice { name: "desk".to_string() });
    assert_eq!(
        error.to_string(),
        "device 'desk' is not configured. Add it with `tapoctl devices add`"
    );
}

#[test]
fn devices_are_kept_in_the_order_of_their_names() {
    let config = with_names(&["b", "a-2", "a", "B", "a_1", "aa"]);
    let mut names = Vec::new();
    for i in 0..config.devices.len() {
        names.push(config.devices.entry(i).0.as_str());
    }
    assert_eq!(names, ["B", "a", "a-2", "a_1", "aa", "b"]);
}

#[test]
fn username_comes_and_goes_and_devices_stay() {
    let mut config = with_names(&["desk"]);
    let devices = config.devices.clone();
    let missing = stored_username(&config).unwrap_err();
    assert_eq!(missing, Error::NoUsername);
    assert_eq!(
        missing.to_string(),
        "no Tapo username configured. Run `tapoctl login --username you@example.com` first"
    );
    store_username(&mut config, "you@example.com");
    assert_eq!(stored_username(&config).unwrap(), "you@example.com");
    assert_eq!(config.devices, devices);
    assert_eq!(forget_username(&mut config), Some("you@example.com".to_string()));
    assert_eq!(config.username, None);
    assert_eq!(forget_username(&mut config), None);
    assert_eq!(config.devices, devices);
}

#[test]
fn empty_passwords_are_refused() {
    assert_eq!(validate_password(" "), Ok(()));
    let error = validate_password("").unwrap_err();
    assert_eq!(error, Error::EmptyPassword);
    assert_eq!(error.to_string(), "password cannot be empty");
}

#[test]
fn slugs_join_words_with_single_hyphens() {
    let slug = |text: &str| sanitise_device_name(text);
    assert_eq!(slug("Desk  Plug").unwrap(), "desk-plug");
    assert_eq!(slug("__Desk-_ Plug--").unwrap(), "desk-plug");
    assert_eq!(slug("a (b) c").unwrap(), "a-b-c");
    assert_eq!(slug("a(b)c").unwrap(), "abc");
    assert_eq!(slug("- _"), None);
    assert_eq!(slug("\u{1f4a1}"), None);
    assert_eq!(slug("desk-plug").unwrap(), "desk-plug");
}

#[test]
fn safe_names_are_their_own_safe_names() {
    for text in ["Desk  Plug", "__A-_ B--", "K\u{dc}CHE 2", "\u{212a}elvin", "x"] {
        let name = sanitise_device_name(text).unwrap();
        assert!(name
            .chars()
            .all(|c| c.is_ascii_lowercase() || c.is_ascii_digit() || c == '-'));
        assert_eq!(sanitise_device_name(&name).unwrap(), name);
    }
}

#[test]
fn no_lower_case_of_any_character_holds_an_ascii_capital() {
    for c in '\0'..=char::MAX {
        let lowered = lowered_chars(&c.to_string());
        assert!(!lowered.is_empty());
        assert!(lowered.iter().all(|l| !l.is_ascii_uppercase()), "{c:?}");
    }
}

#[test]
fn slugs_go_by_the_lower_case_of_unicode() {
    // The Kelvin sign, and a capital I with a dot above, which becomes two characters.
    assert_eq!(sanitise_device_name("\u{212a}elvin").unwrap(), "kelvin");
    assert_eq!(sanitise_device_name("\u{130}zmir").unwrap(), "izmir");
    assert_eq!(sanitise_device_name("K\u{dc}CHE").unwrap(), "kche");
    assert_eq!(slug_of(&"K".chars().collect()).unwrap(), "K");
}

#[test]
fn devices_without_a_usable_nickname_are_named_by_model_and_address() {
    let config = Config::default();
    assert_eq!(
        discovered_device_name(&config, "\u{1f4a1}", "P110M (EU)", address("fe80::1:2")),
        "p110m-eu-fe80--1-2"
    );
    assert_eq!(
        discovered_device_name(&config, " ", "", address("10.0.0.1")),
        "tapo-10-0-0-1"
    );
}

#[test]
fn taken_names_get_the_least_free_number() {
    let config = with_names(&["plug", "plug-2", "plug-4"]);
    assert_eq!(unique_device_name(&config, "plug"), "plug-3");
    assert_eq!(unique_device_name(&config, "plug-2"), "plug-2-2");
    assert_eq!(unique_device_name(&config, "lamp"), "lamp");
    let many: Vec<String> = (2..=11).map(|n| format!("x-{n}")).collect();
    let mut names: Vec<&str> = many.iter().map(|n| n.as_str()).collect();
    names.push("x");
    assert_eq!(unique_device_name(&with_names(&names), "x"), "x-12");
}
