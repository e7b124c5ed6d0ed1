//! Where the configuration is kept.
use vstd::prelude::*;

use crate::error;
use crate::error::{Error, ErrorView};

verus! {

/// Where the configuration is kept.
#[derive(Debug, Clone, Copy, PartialEq, Eq, Structural)]
pub enum ConfigLocation {
    /// In the file that `TAPOCTL_CONFIG` names.
    Override,
    /// In `tapoctl/config.toml` under the directory that `XDG_CONFIG_HOME` names.
    XdgConfigHome,
    /// In `.config/tapoctl/config.toml` under the directory that `HOME` names.
    Home,
}

impl View for ConfigLocation {
    type V = ConfigLocation;

    open spec fn view(&self) -> ConfigLocation {
        *self
    }
}

/// Where the configuration is kept, by which of the variables are set.
pub open spec fn location_outcome(
    has_override: bool,
    has_xdg_config_home: bool,
    has_home: bool,
) -> Result<ConfigLocation, ErrorView> {
    if has_override {
        Ok(ConfigLocation::Override)
    } else if has_xdg_config_home {
        Ok(ConfigLocation::XdgConfigHome)
    } else if has_home {
        Ok(ConfigLocation::Home)
    } else {
        Err(ErrorView::NoHome)
    }
}

/// Where the configuration is kept, by which of the variables are set.
pub fn config_location(has_override: bool, has_xdg_config_home: bool, has_home: bool) -> (r: Result<
    ConfigLocation,
    Error,
>)
    ensures
        error::outcome(r) == location_outcome(has_override, has_xdg_config_home, has_home),
{
    if has_override {
        Ok(ConfigLocation::Override)
    } else if has_xdg_config_home {
        Ok(ConfigLocation::XdgConfigHome)
    } else if has_home {
        Ok(ConfigLocation::Home)
    } else {
        Err(Error::NoHome)
    }
}

/// The file that holds the configuration, under the directory that the variable names; none where
/// the variable names the file itself.
pub open spec fn file_under(location: ConfigLocation) -> Option<Seq<char>> {
    match location {
        ConfigLocation::Override => None,
        ConfigLocation::XdgConfigHome => Some("tapoctl/config.toml"@),
        ConfigLocation::Home => Some(".config/tapoctl/config.toml"@),
    }
}

/// The file that holds the configuration, under the directory that the variable names; none where
/// the variable names the file itself.
pub fn config_file(location: ConfigLocation) -> (r: Option<&'static str>)
    ensures
        r is Some == file_under(location) is Some,
        r matches Some(file) ==> file_under(location) == Some(file@),
{
    match location {
        ConfigLocation::Override => None,
        ConfigLocation::XdgConfigHome => Some("tapoctl/config.toml"),
        ConfigLocation::Home => Some(".config/tapoctl/config.toml"),
    }
}

// Laws

/// The first of `TAPOCTL_CONFIG`, `XDG_CONFIG_HOME` and `HOME` that is set decides, and there is
/// nowhere to keep the configuration exactly where none is.
pub proof fn law_first_variable_decides(has_override: bool, has_xdg: bool, has_home: bool)
    ensures
        location_outcome(true, has_xdg, has_home) == Ok::<_, ErrorView>(ConfigLocation::Override),
        location_outcome(false, true, has_home) == Ok::<_, ErrorView>(
            ConfigLocation::XdgConfigHome,
        ),
        location_outcome(false, false, true) == Ok::<_, ErrorView>(ConfigLocation::Home),
        location_outcome(false, false, false) == Err::<ConfigLocation, _>(ErrorView::NoHome),
        location_outcome(has_override, has_xdg, has_home) is Err <==> !has_override && !has_xdg
            && !has_home,
{
}

/// `TAPOCTL_CONFIG` names the file itself, `XDG_CONFIG_HOME` the directory of configurations, and
/// `HOME` the directory above that.
pub proof fn law_config_files()
    ensures
        file_under(ConfigLocation::Override) is None,
        file_under(ConfigLocation::XdgConfigHome) == Some("tapoctl/config.toml"@),
        file_under(ConfigLocation::Home) == Some(".config/"@ + "tapoctl/config.toml"@),
{
    reveal_strlit("tapoctl/config.toml");
    reveal_strlit(".config/");
    reveal_strlit(".config/tapoctl/config.toml");
    assert(".config/"@ + "tapoctl/config.toml"@ =~= ".config/tapoctl/config.toml"@);
}

} // verus!
