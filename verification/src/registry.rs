//! The stored configuration: the account's username and the registry of devices.
use vstd::prelude::*;

use crate::devices::{DeviceConfig, DeviceMap};
use crate::error;
use crate::error::{Error, ErrorView};
use crate::text;

verus! {

/// The stored configuration.
#[derive(Debug, PartialEq, Eq)]
pub struct Config {
    pub username: Option<String>,
    pub devices: DeviceMap,
}

/// A configuration as a username and a map from names to devices.
pub struct ConfigView {
    pub username: Option<Seq<char>>,
    pub devices: Map<Seq<char>, DeviceConfig>,
}

impl View for Config {
    type V = ConfigView;

    open spec fn view(&self) -> ConfigView {
        ConfigView {
            username: match self.username {
                Some(u) => Some(u@),
                None => None,
            },
            devices: self.devices@,
        }
    }
}

impl Default for Config {
    fn default() -> (r: Self)
        ensures
            r@ == (ConfigView {
                username: None,
                devices: Map::<Seq<char>, DeviceConfig>::empty(),
            }),
    {
        Config { username: None, devices: DeviceMap::new() }
    }
}

impl Clone for Config {
    fn clone(&self) -> (r: Self)
        ensures
            r@ == self@,
    {
        Config {
            username: match &self.username {
                Some(u) => Some(u.clone()),
                None => None,
            },
            devices: self.devices.clone(),
        }
    }
}

/// Whether `c` can stand in a device name.
pub open spec fn is_name_char(c: char) -> bool {
    text::is_ascii_alphanumeric(c) || c == '-' || c == '_'
}

/// Whether `name` can name a device: not empty, and made of ASCII letters, digits, hyphens and
/// underscores only.
pub open spec fn is_valid_name(name: Seq<char>) -> bool {
    name.len() > 0 && forall|i: int| 0 <= i < name.len() ==> is_name_char(#[trigger] name[i])
}

/// What adding a device of that name comes to.
pub open spec fn add_outcome(
    devices: Map<Seq<char>, DeviceConfig>,
    name: Seq<char>,
    replace: bool,
) -> Result<(), ErrorView> {
    if !is_valid_name(name) {
        Err(ErrorView::InvalidDeviceName)
    } else if !replace && devices.contains_key(name) {
        Err(ErrorView::DeviceExists { name })
    } else {
        Ok(())
    }
}

/// The devices after an attempt to add one.
pub open spec fn after_add(
    devices: Map<Seq<char>, DeviceConfig>,
    name: Seq<char>,
    device: DeviceConfig,
    replace: bool,
) -> Map<Seq<char>, DeviceConfig> {
    if add_outcome(devices, name, replace) is Ok {
        devices.insert(name, device)
    } else {
        devices
    }
}

/// Accepts the names that need no quoting in a shell.
pub fn validate_device_name(name: &str) -> (r: Result<(), Error>)
    ensures
        error::outcome(r) == (if is_valid_name(name@) {
            Ok(())
        } else {
            Err(ErrorView::InvalidDeviceName)
        }),
{
    let chars = text::chars_of(name);
    if chars.len() == 0 {
        return Err(Error::InvalidDeviceName);
    }
    let mut i: usize = 0;
    while i < chars.len()
        invariant
            i <= chars.len(),
            chars@ == name@,
            forall|k: int| 0 <= k < i ==> is_name_char(#[trigger] name@[k]),
        decreases chars.len() - i,
    {
        let c = chars[i];
        if !(text::ascii_alphanumeric(c) || c == '-' || c == '_') {
            assert(!is_name_char(name@[i as int]));
            return Err(Error::InvalidDeviceName);
        }
        i += 1;
    }
    Ok(())
}

/// Adds a device under a valid name; a taken name only where it is to be replaced.
pub fn add_device(config: &mut Config, name: String, device: DeviceConfig, replace: bool) -> (r:
    Result<(), Error>)
    ensures
        error::outcome(r) == add_outcome(old(config)@.devices, name@, replace),
        final(config)@.devices == after_add(old(config)@.devices, name@, device, replace),
        final(config)@.username == old(config)@.username,
{
    match validate_device_name(&name) {
        Err(e) => {
            return Err(e);
        },
        Ok(()) => {},
    }
    if !replace && config.devices.contains_key(&name) {
        return Err(Error::DeviceExists { name });
    }
    let _ = config.devices.insert(name, device);
    Ok(())
}

/// What removing the device of that name comes to.
pub open spec fn remove_outcome(
    devices: Map<Seq<char>, DeviceConfig>,
    name: Seq<char>,
) -> Result<DeviceConfig, ErrorView> {
    if devices.contains_key(name) {
        Ok(devices[name])
    } else {
        Err(ErrorView::DeviceNotConfigured { name })
    }
}

/// Removes the device of that name and hands it back.
pub fn remove_device(config: &mut Config, name: &str) -> (r: Result<DeviceConfig, Error>)
    ensures
        error::outcome(r) == remove_outcome(old(config)@.devices, name@),
        final(config)@.devices == old(config)@.devices.remove(name@),
        final(config)@.username == old(config)@.username,
{
    match config.devices.remove(name) {
        Some(device) => Ok(device),
        None => Err(Error::DeviceNotConfigured { name: name.to_owned() }),
    }
}

/// What looking up the device of that name comes to.
pub open spec fn get_outcome(
    devices: Map<Seq<char>, DeviceConfig>,
    name: Seq<char>,
) -> Result<DeviceConfig, ErrorView> {
    if devices.contains_key(name) {
        Ok(devices[name])
    } else {
        Err(ErrorView::UnknownDevice { name })
    }
}

/// The device of that name.
pub fn get_device<'a>(config: &'a Config, name: &str) -> (r: Result<&'a DeviceConfig, Error>)
    ensures
        error::outcome(r) == get_outcome(config@.devices, name@),
{
    match config.devices.get(name) {
        Some(device) => Ok(device),
        None => Err(Error::UnknownDevice { name: name.to_owned() }),
    }
}

/// Accepts any password but the empty one.
pub fn validate_password(password: &str) -> (r: Result<(), Error>)
    ensures
        error::outcome(r) == (if password@.len() > 0 {
            Ok(())
        } else {
            Err(ErrorView::EmptyPassword)
        }),
{
    if password.is_empty() {
        Err(Error::EmptyPassword)
    } else {
        Ok(())
    }
}

/// Stores the account's username.
pub fn store_username(config: &mut Config, username: &str)
    ensures
        final(config)@.username == Some(username@),
        final(config)@.devices == old(config)@.devices,
{
    config.username = Some(username.to_owned());
}

/// Forgets the account's username and hands it back; the devices stay.
pub fn forget_username(config: &mut Config) -> (r: Option<String>)
    ensures
        r is Some == old(config)@.username is Some,
        r matches Some(u) ==> old(config)@.username == Some(u@),
        final(config)@.username is None,
        final(config)@.devices == old(config)@.devices,
{
    config.username.take()
}

/// What asking for the username comes to.
pub open spec fn username_outcome(config: ConfigView) -> Result<Seq<char>, ErrorView> {
    match config.username {
        Some(u) => Ok(u),
        None => Err(ErrorView::NoUsername),
    }
}

/// The stored username.
pub fn stored_username(config: &Config) -> (r: Result<&String, Error>)
    ensures
        error::outcome(r) == username_outcome(config@),
{
    match &config.username {
        Some(u) => Ok(u),
        None => Err(Error::NoUsername),
    }
}

// Laws

/// A device that was added is found under its name, and every other name leads where it led.
pub proof fn law_get_after_add(
    devices: Map<Seq<char>, DeviceConfig>,
    name: Seq<char>,
    device: DeviceConfig,
    replace: bool,
    other: Seq<char>,
)
    requires
        add_outcome(devices, name, replace) is Ok,
    ensures
        get_outcome(after_add(devices, name, device, replace), name) == Ok::<_, ErrorView>(device),
        other != name ==> get_outcome(after_add(devices, name, device, replace), other)
            == get_outcome(devices, other),
{
}

/// A name that is taken is refused unless it is to be replaced, and a refusal changes nothing.
pub proof fn law_taken_names_are_kept(
    devices: Map<Seq<char>, DeviceConfig>,
    name: Seq<char>,
    device: DeviceConfig,
)
    requires
        devices.contains_key(name),
    ensures
        add_outcome(devices, name, false) is Err,
        after_add(devices, name, device, false) == devices,
        is_valid_name(name) ==> add_outcome(devices, name, true) is Ok,
{
}

/// Removing a device that was added under a free name gives back the device and the registry as
/// it was.
pub proof fn law_remove_undoes_add(
    devices: Map<Seq<char>, DeviceConfig>,
    name: Seq<char>,
    device: DeviceConfig,
)
    requires
        add_outcome(devices, name, false) is Ok,
    ensures
        remove_outcome(after_add(devices, name, device, false), name) == Ok::<_, ErrorView>(device),
        after_add(devices, name, device, false).remove(name) == devices,
{
    assert(devices.insert(name, device).remove(name) =~= devices);
}

/// A name that was removed is found no more, can be added again, and every other name leads where
/// it led.
pub proof fn law_removed_names_are_free(
    devices: Map<Seq<char>, DeviceConfig>,
    name: Seq<char>,
    other: Seq<char>,
)
    ensures
        get_outcome(devices.remove(name), name) is Err,
        is_valid_name(name) ==> add_outcome(devices.remove(name), name, false) is Ok,
        other != name ==> get_outcome(devices.remove(name), other) == get_outcome(devices, other),
{
}

/// Whether every name in the registry is a valid one.
pub open spec fn all_names_valid(devices: Map<Seq<char>, DeviceConfig>) -> bool {
    forall|n: Seq<char>| #[trigger] devices.contains_key(n) ==> is_valid_name(n)
}

/// Adding and removing devices keeps every name in the registry valid.
pub proof fn law_names_stay_valid(
    devices: Map<Seq<char>, DeviceConfig>,
    name: Seq<char>,
    device: DeviceConfig,
    replace: bool,
)
    requires
        all_names_valid(devices),
    ensures
        all_names_valid(after_add(devices, name, device, replace)),
        all_names_valid(devices.remove(name)),
{
}

/// A name is valid exactly where it is not empty and every character of it is an ASCII letter, a
/// digit, a hyphen or an underscore.
pub proof fn law_valid_names(name: Seq<char>)
    ensures
        is_valid_name(name) <==> name.len() > 0 && forall|i: int|
            0 <= i < name.len() ==> ('0' <= #[trigger] name[i] && name[i] <= '9') || ('A' <= name[i]
                && name[i] <= 'Z') || ('a' <= name[i] && name[i] <= 'z') || name[i] == '-'
                || name[i] == '_',
{
    if is_valid_name(name) {
        assert forall|i: int| 0 <= i < name.len() implies ('0' <= #[trigger] name[i] && name[i]
            <= '9') || ('A' <= name[i] && name[i] <= 'Z') || ('a' <= name[i] && name[i] <= 'z')
            || name[i] == '-' || name[i] == '_' by {
            assert(is_name_char(name[i]));
        }
    }
}

/// A device is added exactly where its name is valid and either free or to be replaced; the error
/// says which it was not.
pub proof fn law_what_can_be_added(
    devices: Map<Seq<char>, DeviceConfig>,
    name: Seq<char>,
    device: DeviceConfig,
    replace: bool,
)
    ensures
        add_outcome(devices, name, replace) is Ok <==> is_valid_name(name) && (replace
            || !devices.contains_key(name)),
        !is_valid_name(name) ==> add_outcome(devices, name, replace) == Err::<(), _>(
            ErrorView::InvalidDeviceName,
        ),
        is_valid_name(name) && !replace && devices.contains_key(name) ==> add_outcome(
            devices,
            name,
            replace,
        ) == Err::<(), _>(ErrorView::DeviceExists { name }),
        is_valid_name(name) && (replace || !devices.contains_key(name)) ==> after_add(
            devices,
            name,
            device,
            replace,
        ) == devices.insert(name, device),
        !(is_valid_name(name) && (replace || !devices.contains_key(name))) ==> after_add(
            devices,
            name,
            device,
            replace,
        ) == devices,
{
}

/// A device is found, and removed, exactly where there is one of the name; the error carries the
/// name.
pub proof fn law_what_is_found(devices: Map<Seq<char>, DeviceConfig>, name: Seq<char>)
    ensures
        devices.contains_key(name) ==> get_outcome(devices, name) == Ok::<_, ErrorView>(
            devices[name],
        ) && remove_outcome(devices, name) == Ok::<_, ErrorView>(devices[name]),
        !devices.contains_key(name) ==> get_outcome(devices, name) == Err::<DeviceConfig, _>(
            ErrorView::UnknownDevice { name },
        ) && remove_outcome(devices, name) == Err::<DeviceConfig, _>(
            ErrorView::DeviceNotConfigured { name },
        ),
{
}

/// The username is the stored one, and asking for it fails exactly where none is stored.
pub proof fn law_username_is_the_stored_one(config: ConfigView)
    ensures
        config.username matches Some(u) ==> username_outcome(config) == Ok::<_, ErrorView>(u),
        config.username is None ==> username_outcome(config) == Err::<Seq<char>, _>(
            ErrorView::NoUsername,
        ),
{
}

/// The view of a configuration shows its username and its devices as they are.
pub proof fn law_config_shows_its_fields(config: Config)
    ensures
        config.username matches Some(u) ==> config@.username == Some(u@),
        config.username is None ==> config@.username is None,
        config@.devices == config.devices@,
{
}

} // verus!
