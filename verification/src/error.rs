//! What can go wrong, and how each fault reads.
use vstd::prelude::*;
use vstd::string::StringExecFns;

use crate::address::IpAddr;
use crate::model;
use crate::model::DeviceModel;
use crate::numeral;

verus! {

/// Why a text is no whole number from 0 to 255.
#[derive(Debug, Clone, Copy, PartialEq, Eq, Structural)]
pub enum NumberFault {
    /// There is nothing to read.
    Empty,
    /// A character is no digit.
    InvalidDigit,
    /// The number is above 255.
    Overflow,
}

/// Everything that the library refuses.
#[derive(Debug, Clone, PartialEq, Eq)]
pub enum Error {
    /// A model that cannot be controlled; trimmed and in lower case.
    UnsupportedModel { model: String },
    /// A discovery target of white space only.
    EmptyTarget,
    /// A target with more than one slash.
    InvalidCidrTarget { target: String },
    /// A target with something other than an IPv4 address before the slash.
    InvalidCidrAddress { target: String },
    /// A target with something other than a small number after the slash.
    InvalidCidrPrefix { target: String, fault: NumberFault },
    /// A target with a number above 32 after the slash.
    CidrPrefixTooLong { target: String },
    /// A target without a slash that is no IP address.
    InvalidTarget { target: String },
    /// A discovered device that reported something other than an IP address.
    InvalidReportedAddress { ip: String },
    /// A selection of a candidate that is not there.
    CandidateOutOfRange { index: usize },
    /// A name that is taken.
    DeviceExists { name: String },
    /// A name that cannot be removed because it is not there.
    DeviceNotConfigured { name: String },
    /// A name that cannot be looked up because it is not there.
    UnknownDevice { name: String },
    /// A name with a character outside the allowed ones, or with none.
    InvalidDeviceName,
    /// A discovery timeout that the controller does not accept.
    DiscoveryTimeout,
    /// A discovery timeout that the command line does not accept.
    DiscoveryTimeoutFlag,
    /// A plug that does not measure energy.
    NoEnergyMonitoring { plug: DeviceModel, address: IpAddr },
    /// An empty password.
    EmptyPassword,
    /// No stored username.
    NoUsername,
    /// Nowhere to keep the configuration.
    NoHome,
}

/// An error with its texts as sequences of characters.
pub enum ErrorView {
    UnsupportedModel { model: Seq<char> },
    EmptyTarget,
    InvalidCidrTarget { target: Seq<char> },
    InvalidCidrAddress { target: Seq<char> },
    InvalidCidrPrefix { target: Seq<char>, fault: NumberFault },
    CidrPrefixTooLong { target: Seq<char> },
    InvalidTarget { target: Seq<char> },
    InvalidReportedAddress { ip: Seq<char> },
    CandidateOutOfRange { index: usize },
    DeviceExists { name: Seq<char> },
    DeviceNotConfigured { name: Seq<char> },
    UnknownDevice { name: Seq<char> },
    InvalidDeviceName,
    DiscoveryTimeout,
    DiscoveryTimeoutFlag,
    NoEnergyMonitoring { plug: DeviceModel, address: IpAddr },
    EmptyPassword,
    NoUsername,
    NoHome,
}

impl View for Error {
    type V = ErrorView;

    open spec fn view(&self) -> ErrorView {
        match *self {
            Error::UnsupportedModel { model } => ErrorView::UnsupportedModel { model: model@ },
            Error::EmptyTarget => ErrorView::EmptyTarget,
            Error::InvalidCidrTarget { target } => ErrorView::InvalidCidrTarget { target: target@ },
            Error::InvalidCidrAddress { target } => ErrorView::InvalidCidrAddress {
                target: target@,
            },
            Error::InvalidCidrPrefix { target, fault } => ErrorView::InvalidCidrPrefix {
                target: target@,
                fault,
            },
            Error::CidrPrefixTooLong { target } => ErrorView::CidrPrefixTooLong { target: target@ },
            Error::InvalidTarget { target } => ErrorView::InvalidTarget { target: target@ },
            Error::InvalidReportedAddress { ip } => ErrorView::InvalidReportedAddress { ip: ip@ },
            Error::CandidateOutOfRange { index } => ErrorView::CandidateOutOfRange { index },
            Error::DeviceExists { name } => ErrorView::DeviceExists { name: name@ },
            Error::DeviceNotConfigured { name } => ErrorView::DeviceNotConfigured { name: name@ },
            Error::UnknownDevice { name } => ErrorView::UnknownDevice { name: name@ },
            Error::InvalidDeviceName => ErrorView::InvalidDeviceName,
            Error::DiscoveryTimeout => ErrorView::DiscoveryTimeout,
            Error::DiscoveryTimeoutFlag => ErrorView::DiscoveryTimeoutFlag,
            Error::NoEnergyMonitoring { plug, address } => ErrorView::NoEnergyMonitoring {
                plug,
                address,
            },
            Error::EmptyPassword => ErrorView::EmptyPassword,
            Error::NoUsername => ErrorView::NoUsername,
            Error::NoHome => ErrorView::NoHome,
        }
    }
}

/// What a fallible call came to: the view of its value or the view of its error.
pub open spec fn outcome<T: View>(r: Result<T, Error>) -> Result<T::V, ErrorView> {
    match r {
        Ok(v) => Ok(v@),
        Err(e) => Err(e@),
    }
}

/// `name` between two pieces of text.
pub open spec fn between(before: Seq<char>, name: Seq<char>, after: Seq<char>) -> Seq<char> {
    before + name + after
}

/// How an error reads.
pub open spec fn message(e: ErrorView) -> Seq<char> {
    match e {
        ErrorView::UnsupportedModel { model } => between(
            "unsupported model '"@,
            model,
            "'. Supported models: p100, p105, p110, p115"@,
        ),
        ErrorView::EmptyTarget => "discovery target cannot be empty"@,
        ErrorView::InvalidCidrTarget { target } => between(
            "invalid IPv4 CIDR target '"@,
            target,
            "'"@,
        ),
        ErrorView::InvalidCidrAddress { target } => between(
            "invalid IPv4 CIDR address in target '"@,
            target,
            "'"@,
        ),
        ErrorView::InvalidCidrPrefix { target, fault } => between(
            "invalid IPv4 CIDR prefix in target '"@,
            target,
            "'"@,
        ),
        ErrorView::CidrPrefixTooLong { target } => between(
            "invalid IPv4 CIDR prefix in target '"@,
            target,
            "': expected 0 to 32"@,
        ),
        ErrorView::InvalidTarget { target } => between(
            "invalid discovery target '"@,
            target,
            "'"@,
        ),
        ErrorView::InvalidReportedAddress { ip } => between(
            "discovered device returned an invalid IP address: "@,
            ip,
            ""@,
        ),
        ErrorView::CandidateOutOfRange { index } => between(
            "selected discovery candidate index "@,
            numeral::decimal(index as nat),
            " is out of range"@,
        ),
        ErrorView::DeviceExists { name } => between(
            "device '"@,
            name,
            "' already exists. Re-run with --replace if this is intentional"@,
        ),
        ErrorView::DeviceNotConfigured { name } => between(
            "device '"@,
            name,
            "' is not configured"@,
        ),
        ErrorView::UnknownDevice { name } => between(
            "device '"@,
            name,
            "' is not configured. Add it with `tapoctl devices add`"@,
        ),
        ErrorView::InvalidDeviceName =>
            "device names must contain only ASCII letters, numbers, hyphens, and underscores"@,
        ErrorView::DiscoveryTimeout => "discovery_timeout_seconds must be between 1 and 60"@,
        ErrorView::DiscoveryTimeoutFlag => "--discovery-timeout-seconds must be between 1 and 60"@,
        ErrorView::NoEnergyMonitoring { plug, address } => between(
            model::model_text(plug) + " at "@,
            crate::address::ip_text(address),
            " does not support energy monitoring"@,
        ),
        ErrorView::EmptyPassword => "password cannot be empty"@,
        ErrorView::NoUsername =>
            "no Tapo username configured. Run `tapoctl login --username you@example.com` first"@,
        ErrorView::NoHome => "HOME is not set and TAPOCTL_CONFIG was not provided"@,
    }
}

/// What lies behind an error that a text which could not be read caused.
pub open spec fn cause_text(e: ErrorView) -> Option<Seq<char>> {
    match e {
        ErrorView::InvalidCidrAddress { target } => Some("invalid IPv4 address syntax"@),
        ErrorView::InvalidCidrPrefix { target, fault } => Some(
            match fault {
                NumberFault::Empty => "cannot parse integer from empty string"@,
                NumberFault::InvalidDigit => "invalid digit found in string"@,
                NumberFault::Overflow => "number too large to fit in target type"@,
            },
        ),
        ErrorView::InvalidTarget { target } => Some("invalid IP address syntax"@),
        ErrorView::InvalidReportedAddress { ip } => Some("invalid IP address syntax"@),
        _ => None,
    }
}

/// `name` between two pieces of text.
fn put_between(before: &str, name: &str, after: &str) -> (r: String)
    ensures
        r@ == between(before@, name@, after@),
{
    let mut out = before.to_owned();
    out.append(name);
    out.append(after);
    out
}

impl Error {
    /// How the error reads.
    pub fn to_string(&self) -> (r: String)
        ensures
            r@ == message(self@),
    {
        match self {
            Error::UnsupportedModel { model } => put_between(
                "unsupported model '",
                model,
                "'. Supported models: p100, p105, p110, p115",
            ),
            Error::EmptyTarget => "discovery target cannot be empty".to_owned(),
            Error::InvalidCidrTarget { target } => put_between(
                "invalid IPv4 CIDR target '",
                target,
                "'",
            ),
            Error::InvalidCidrAddress { target } => put_between(
                "invalid IPv4 CIDR address in target '",
                target,
                "'",
            ),
            Error::InvalidCidrPrefix { target, fault: _ } => put_between(
                "invalid IPv4 CIDR prefix in target '",
                target,
                "'",
            ),
            Error::CidrPrefixTooLong { target } => put_between(
                "invalid IPv4 CIDR prefix in target '",
                target,
                "': expected 0 to 32",
            ),
            Error::InvalidTarget { target } => put_between(
                "invalid discovery target '",
                target,
                "'",
            ),
            Error::InvalidReportedAddress { ip } => put_between(
                "discovered device returned an invalid IP address: ",
                ip,
                "",
            ),
            Error::CandidateOutOfRange { index } => {
                let mut out = "selected discovery candidate index ".to_owned();
                numeral::push_number(&mut out, *index as u128, 10);
                out.append(" is out of range");
                out
            },
            Error::DeviceExists { name } => put_between(
                "device '",
                name,
                "' already exists. Re-run with --replace if this is intentional",
            ),
            Error::DeviceNotConfigured { name } => put_between(
                "device '",
                name,
                "' is not configured",
            ),
            Error::UnknownDevice { name } => put_between(
                "device '",
                name,
                "' is not configured. Add it with `tapoctl devices add`",
            ),
            Error::InvalidDeviceName =>
                "device names must contain only ASCII letters, numbers, hyphens, and underscores".to_owned(),
            Error::DiscoveryTimeout =>
                "discovery_timeout_seconds must be between 1 and 60".to_owned(),
            Error::DiscoveryTimeoutFlag =>
                "--discovery-timeout-seconds must be between 1 and 60".to_owned(),
            Error::NoEnergyMonitoring { plug, address } => {
                let mut out = plug.to_string();
                out.append(" at ");
                address.push_text(&mut out);
                out.append(" does not support energy monitoring");
                out
            },
            Error::EmptyPassword => "password cannot be empty".to_owned(),
            Error::NoUsername =>
                "no Tapo username configured. Run `tapoctl login --username you@example.com` first".to_owned(),
            Error::NoHome => "HOME is not set and TAPOCTL_CONFIG was not provided".to_owned(),
        }
    }

    /// What lies behind the error, where a text that could not be read caused it.
    pub fn cause(&self) -> (r: Option<String>)
        ensures
            r is Some == cause_text(self@) is Some,
            r matches Some(s) ==> cause_text(self@) == Some(s@),
    {
        match self {
            Error::InvalidCidrAddress { target: _ } => Some(
                "invalid IPv4 address syntax".to_owned(),
            ),
            Error::InvalidCidrPrefix { target: _, fault } => Some(
                match fault {
                    NumberFault::Empty => "cannot parse integer from empty string".to_owned(),
                    NumberFault::InvalidDigit => "invalid digit found in string".to_owned(),
                    NumberFault::Overflow => "number too large to fit in target type".to_owned(),
                },
            ),
            Error::InvalidTarget { target: _ } => Some("invalid IP address syntax".to_owned()),
            Error::InvalidReportedAddress { ip: _ } => Some("invalid IP address syntax".to_owned()),
            _ => None,
        }
    }
}

// Laws

/// An error about something that was given reads with it in full: a target, a name, a model, an
/// address or a number.
pub proof fn law_messages_hold_what_was_given(
    t: Seq<char>,
    fault: NumberFault,
    index: usize,
    plug: DeviceModel,
    ip: IpAddr,
)
    ensures
        message(ErrorView::UnsupportedModel { model: t }) == "unsupported model '"@ + t
            + "'. Supported models: p100, p105, p110, p115"@,
        message(ErrorView::InvalidCidrTarget { target: t }) == "invalid IPv4 CIDR target '"@ + t
            + "'"@,
        message(ErrorView::InvalidCidrAddress { target: t })
            == "invalid IPv4 CIDR address in target '"@ + t + "'"@,
        message(ErrorView::InvalidCidrPrefix { target: t, fault })
            == "invalid IPv4 CIDR prefix in target '"@ + t + "'"@,
        message(ErrorView::CidrPrefixTooLong { target: t })
            == "invalid IPv4 CIDR prefix in target '"@ + t + "': expected 0 to 32"@,
        message(ErrorView::InvalidTarget { target: t }) == "invalid discovery target '"@ + t + "'"@,
        message(ErrorView::InvalidReportedAddress { ip: t })
            == "discovered device returned an invalid IP address: "@ + t,
        message(ErrorView::CandidateOutOfRange { index }) == "selected discovery candidate index "@
            + numeral::decimal(index as nat) + " is out of range"@,
        message(ErrorView::DeviceExists { name: t }) == "device '"@ + t
            + "' already exists. Re-run with --replace if this is intentional"@,
        message(ErrorView::DeviceNotConfigured { name: t }) == "device '"@ + t
            + "' is not configured"@,
        message(ErrorView::UnknownDevice { name: t }) == "device '"@ + t
            + "' is not configured. Add it with `tapoctl devices add`"@,
        message(ErrorView::NoEnergyMonitoring { plug, address: ip }) == model::model_text(plug)
            + " at "@ + crate::address::ip_text(ip) + " does not support energy monitoring"@,
{
    reveal_strlit("");
    let said = "discovered device returned an invalid IP address: "@;
    assert(said + t + ""@ =~= said + t);
}

/// How the errors read that carry nothing.
pub proof fn law_plain_messages()
    ensures
        message(ErrorView::EmptyTarget) == "discovery target cannot be empty"@,
        message(ErrorView::InvalidDeviceName)
            == "device names must contain only ASCII letters, numbers, hyphens, and underscores"@,
        message(ErrorView::DiscoveryTimeout)
            == "discovery_timeout_seconds must be between 1 and 60"@,
        message(ErrorView::DiscoveryTimeoutFlag)
            == "--discovery-timeout-seconds must be between 1 and 60"@,
        message(ErrorView::EmptyPassword) == "password cannot be empty"@,
        message(ErrorView::NoUsername)
            == "no Tapo username configured. Run `tapoctl login --username you@example.com` first"@,
        message(ErrorView::NoHome) == "HOME is not set and TAPOCTL_CONFIG was not provided"@,
{
}

/// A text that could not be read lies behind the errors about addresses and prefixes, and behind no
/// other.
pub proof fn law_causes(e: ErrorView)
    ensures
        e is InvalidCidrAddress ==> cause_text(e) == Some("invalid IPv4 address syntax"@),
        e is InvalidTarget || e is InvalidReportedAddress ==> cause_text(e) == Some(
            "invalid IP address syntax"@,
        ),
        e matches ErrorView::InvalidCidrPrefix { target, fault } ==> {
            &&& fault is Empty ==> cause_text(e) == Some("cannot parse integer from empty string"@)
            &&& fault is InvalidDigit ==> cause_text(e) == Some("invalid digit found in string"@)
            &&& fault is Overflow ==> cause_text(e) == Some(
                "number too large to fit in target type"@,
            )
        },
        cause_text(e) is Some ==> e is InvalidCidrAddress || e is InvalidCidrPrefix
            || e is InvalidTarget || e is InvalidReportedAddress,
{
}

/// What a fallible call came to shows its value or its error as it is, and the view of an error
/// everything that the error carries.
pub proof fn law_outcomes_show_values_and_errors<T: View>(r: Result<T, Error>)
    ensures
        r matches Ok(v) ==> outcome(r) == Ok::<T::V, ErrorView>(v@),
        r matches Err(e) ==> outcome(r) == Err::<T::V, ErrorView>(e@),
        r matches Err(e) ==> match e {
            Error::UnsupportedModel { model } => e@ == (ErrorView::UnsupportedModel {
                model: model@,
            }),
            Error::EmptyTarget => e@ is EmptyTarget,
            Error::InvalidCidrTarget { target } => e@ == (ErrorView::InvalidCidrTarget {
                target: target@,
            }),
            Error::InvalidCidrAddress { target } => e@ == (ErrorView::InvalidCidrAddress {
                target: target@,
            }),
            Error::InvalidCidrPrefix { target, fault } => e@ == (ErrorView::InvalidCidrPrefix {
                target: target@,
                fault,
            }),
            Error::CidrPrefixTooLong { target } => e@ == (ErrorView::CidrPrefixTooLong {
                target: target@,
            }),
            Error::InvalidTarget { target } => e@ == (ErrorView::InvalidTarget { target: target@ }),
            Error::InvalidReportedAddress { ip } => e@ == (ErrorView::InvalidReportedAddress {
                ip: ip@,
            }),
            Error::CandidateOutOfRange { index } => e@ == (ErrorView::CandidateOutOfRange {
                index,
            }),
            Error::DeviceExists { name } => e@ == (ErrorView::DeviceExists { name: name@ }),
            Error::DeviceNotConfigured { name } => e@ == (ErrorView::DeviceNotConfigured {
                name: name@,
            }),
            Error::UnknownDevice { name } => e@ == (ErrorView::UnknownDevice { name: name@ }),
            Error::InvalidDeviceName => e@ is InvalidDeviceName,
            Error::DiscoveryTimeout => e@ is DiscoveryTimeout,
            Error::DiscoveryTimeoutFlag => e@ is DiscoveryTimeoutFlag,
            Error::NoEnergyMonitoring { plug, address } => e@ == (ErrorView::NoEnergyMonitoring {
                plug,
                address,
            }),
            Error::EmptyPassword => e@ is EmptyPassword,
            Error::NoUsername => e@ is NoUsername,
            Error::NoHome => e@ is NoHome,
        },
{
}

} // verus!
