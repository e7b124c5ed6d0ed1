//! What a scan hears of, and the bookkeeping while it runs.
use vstd::prelude::*;

use crate::address;
use crate::address::IpAddr;
use crate::error;
use crate::error::{Error, ErrorView};
use crate::model;
use crate::model::{supported_device_model, DeviceModel};
use crate::text;

verus! {

/// What a device answers to a scan.
#[derive(Debug, Clone, PartialEq, Eq)]
pub struct DiscoveryReport {
    pub ip: String,
    pub model: String,
    pub nickname: String,
    pub device_type: String,
}

/// A report with its texts as sequences of characters.
pub struct DiscoveryReportView {
    pub ip: Seq<char>,
    pub model: Seq<char>,
    pub nickname: Seq<char>,
    pub device_type: Seq<char>,
}

impl View for DiscoveryReport {
    type V = DiscoveryReportView;

    open spec fn view(&self) -> DiscoveryReportView {
        DiscoveryReportView {
            ip: self.ip@,
            model: self.model@,
            nickname: self.nickname@,
            device_type: self.device_type@,
        }
    }
}

/// A device that a scan found.
#[derive(Debug, Clone, PartialEq, Eq)]
pub struct DiscoveredDevice {
    pub ip: IpAddr,
    pub model: String,
    pub nickname: String,
    pub device_type: String,
    pub supported_model: Option<DeviceModel>,
}

/// A discovered device with its texts as sequences of characters.
pub struct DiscoveredDeviceView {
    pub ip: IpAddr,
    pub model: Seq<char>,
    pub nickname: Seq<char>,
    pub device_type: Seq<char>,
    pub supported_model: Option<DeviceModel>,
}

impl View for DiscoveredDevice {
    type V = DiscoveredDeviceView;

    open spec fn view(&self) -> DiscoveredDeviceView {
        DiscoveredDeviceView {
            ip: self.ip,
            model: self.model@,
            nickname: self.nickname@,
            device_type: self.device_type@,
            supported_model: self.supported_model,
        }
    }
}

/// The views of the devices.
pub open spec fn device_views(devices: Seq<DiscoveredDevice>) -> Seq<DiscoveredDeviceView> {
    devices.map_values(|d: DiscoveredDevice| d@)
}

/// What reading a report comes to: the device it tells of, unless its address is none.
pub open spec fn report_outcome(report: DiscoveryReportView) -> Result<
    DiscoveredDeviceView,
    ErrorView,
> {
    match address::ip_value(report.ip) {
        Some(ip) => Ok(
            DiscoveredDeviceView {
                ip,
                model: report.model,
                nickname: report.nickname,
                device_type: report.device_type,
                supported_model: model::model_value(report.model),
            },
        ),
        None => Err(ErrorView::InvalidReportedAddress { ip: report.ip }),
    }
}

/// The device that a report tells of.
pub fn discovered_device_from_result(result: &DiscoveryReport) -> (r: Result<
    DiscoveredDevice,
    Error,
>)
    ensures
        error::outcome(r) == report_outcome(result@),
{
    match address::parse_ip_chars(&text::chars_of(&result.ip)) {
        Some(ip) => Ok(
            DiscoveredDevice {
                ip,
                model: result.model.clone(),
                nickname: result.nickname.clone(),
                device_type: result.device_type.clone(),
                supported_model: supported_device_model(&result.model),
            },
        ),
        None => Err(Error::InvalidReportedAddress { ip: result.ip.clone() }),
    }
}

/// Whether a scan may wait that many seconds for answers.
pub open spec fn is_discovery_timeout(seconds: u64) -> bool {
    1 <= seconds <= 60
}

/// Accepts the number of seconds that a scan may wait for answers.
pub fn validate_discovery_timeout(seconds: u64) -> (r: Result<(), Error>)
    ensures
        error::outcome(r) == (if is_discovery_timeout(seconds) {
            Ok(())
        } else {
            Err(ErrorView::DiscoveryTimeout)
        }),
{
    if 1 <= seconds && seconds <= 60 {
        Ok(())
    } else {
        Err(Error::DiscoveryTimeout)
    }
}

/// Accepts the number of seconds that a scan may wait for answers, as given on the command line.
pub fn validate_discovery_timeout_flag(seconds: u64) -> (r: Result<(), Error>)
    ensures
        error::outcome(r) == (if is_discovery_timeout(seconds) {
            Ok(())
        } else {
            Err(ErrorView::DiscoveryTimeoutFlag)
        }),
{
    if 1 <= seconds && seconds <= 60 {
        Ok(())
    } else {
        Err(Error::DiscoveryTimeoutFlag)
    }
}

// Bookkeeping

/// Whether one of the devices has the address.
pub open spec fn found_at(devices: Seq<DiscoveredDeviceView>, ip: IpAddr) -> bool {
    exists|i: int| 0 <= i < devices.len() && (#[trigger] devices[i]).ip == ip
}

/// The devices after one more has answered: only a device at a new address is kept.
pub open spec fn with_device(
    devices: Seq<DiscoveredDeviceView>,
    device: DiscoveredDeviceView,
) -> Seq<DiscoveredDeviceView> {
    if found_at(devices, device.ip) {
        devices
    } else {
        devices.push(device)
    }
}

/// The devices that are kept of all that answered, in order.
pub open spec fn kept(answers: Seq<DiscoveredDeviceView>) -> Seq<DiscoveredDeviceView>
    decreases answers.len(),
{
    if answers.len() == 0 {
        Seq::empty()
    } else {
        with_device(kept(answers.drop_last()), answers.last())
    }
}

/// How many of the devices can be controlled.
pub open spec fn supported_in(devices: Seq<DiscoveredDeviceView>) -> nat
    decreases devices.len(),
{
    if devices.len() == 0 {
        0
    } else {
        supported_in(devices.drop_last()) + (if devices.last().supported_model is Some {
            1nat
        } else {
            0nat
        })
    }
}

/// Whether no two of the devices have the same address.
pub open spec fn addresses_differ(devices: Seq<DiscoveredDeviceView>) -> bool {
    forall|i: int, j: int|
        0 <= i < j < devices.len() ==> (#[trigger] devices[i]).ip != (#[trigger] devices[j]).ip
}

/// No more devices can be controlled than there are.
proof fn lemma_supported_bound(devices: Seq<DiscoveredDeviceView>)
    ensures
        supported_in(devices) <= devices.len(),
    decreases devices.len(),
{
    if devices.len() > 0 {
        lemma_supported_bound(devices.drop_last());
    }
}

/// A running scan: the devices found so far, and what went wrong.
#[derive(Debug, PartialEq, Eq)]
pub struct DiscoverySession {
    devices: Vec<DiscoveredDevice>,
    supported: u64,
    errors: u64,
}

/// A running scan as the devices found and the number of errors.
pub struct DiscoverySessionView {
    pub devices: Seq<DiscoveredDeviceView>,
    pub errors: nat,
}

/// What a scan hears from an address: of a device, or of an error.
pub enum Response {
    Device(DiscoveredDeviceView),
    Failure,
}

/// The scan after one more response.
pub open spec fn after_response(
    session: DiscoverySessionView,
    response: Response,
) -> DiscoverySessionView {
    match response {
        Response::Device(device) => DiscoverySessionView {
            devices: with_device(session.devices, device),
            errors: session.errors,
        },
        Response::Failure => DiscoverySessionView {
            devices: session.devices,
            errors: session.errors + 1,
        },
    }
}

/// The scan after the responses in order.
pub open spec fn after_responses(responses: Seq<Response>) -> DiscoverySessionView
    decreases responses.len(),
{
    if responses.len() == 0 {
        DiscoverySessionView { devices: Seq::empty(), errors: 0 }
    } else {
        after_response(after_responses(responses.drop_last()), responses.last())
    }
}

/// The devices that the responses tell of, in order.
pub open spec fn answers_in(responses: Seq<Response>) -> Seq<DiscoveredDeviceView>
    decreases responses.len(),
{
    if responses.len() == 0 {
        Seq::empty()
    } else {
        match responses.last() {
            Response::Device(device) => answers_in(responses.drop_last()).push(device),
            Response::Failure => answers_in(responses.drop_last()),
        }
    }
}

/// How many of the responses are errors.
pub open spec fn failures_in(responses: Seq<Response>) -> nat {
    responses.filter(|r: Response| r is Failure).len()
}

impl View for DiscoverySession {
    type V = DiscoverySessionView;

    closed spec fn view(&self) -> DiscoverySessionView {
        DiscoverySessionView { devices: device_views(self.devices@), errors: self.errors as nat }
    }
}

impl DiscoverySession {
    #[verifier::type_invariant]
    closed spec fn consistent(self) -> bool {
        &&& addresses_differ(device_views(self.devices@))
        &&& self.supported == supported_in(device_views(self.devices@))
    }

    /// A scan that has heard of nothing yet.
    pub fn new() -> (r: DiscoverySession)
        ensures
            r@ == (DiscoverySessionView {
                devices: Seq::<DiscoveredDeviceView>::empty(),
                errors: 0,
            }),
    {
        let r = DiscoverySession { devices: Vec::new(), supported: 0, errors: 0 };
        proof {
            assert(device_views(r.devices@) =~= Seq::<DiscoveredDeviceView>::empty());
        }
        r
    }

    /// The devices found so far, in the order in which they answered first.
    pub fn devices(&self) -> (r: &Vec<DiscoveredDevice>)
        ensures
            device_views(r@) == self@.devices,
            addresses_differ(self@.devices),
    {
        proof {
            use_type_invariant(self);
        }
        &self.devices
    }

    /// How many of the devices found so far can be controlled.
    pub fn supported_count(&self) -> (r: u64)
        ensures
            r == supported_in(self@.devices),
    {
        proof {
            use_type_invariant(self);
        }
        self.supported
    }

    /// How many errors there were.
    pub fn error_count(&self) -> (r: u64)
        ensures
            r == self@.errors,
    {
        self.errors
    }

    /// Whether one of the devices found so far has the address.
    fn has_address(&self, ip: IpAddr) -> (r: bool)
        ensures
            r == found_at(self@.devices, ip),
    {
        let mut i: usize = 0;
        while i < self.devices.len()
            invariant
                i <= self.devices.len(),
                forall|k: int| 0 <= k < i ==> (#[trigger] self@.devices[k]).ip != ip,
            decreases self.devices.len() - i,
        {
            proof {
                assert(self@.devices[i as int].ip == self.devices@[i as int].ip);
            }
            if self.devices[i].ip == ip {
                return true;
            }
            i += 1;
        }
        false
    }

    /// Takes note of a device; `true` where it is the first at its address.
    pub fn record(&mut self, device: DiscoveredDevice) -> (r: bool)
        ensures
            r == !found_at(old(self)@.devices, device@.ip),
            final(self)@ == after_response(old(self)@, Response::Device(device@)),
    {
        if self.has_address(device.ip) {
            return false;
        }
        let supported = device.supported_model.is_some();
        proof {
            use_type_invariant(&*self);
            lemma_supported_bound(self@.devices);
        }
        let ghost before = self.devices@;
        let mut taken = DiscoverySession::new();
        std::mem::swap(&mut taken, self);
        let count = taken.supported;
        let errors = taken.errors;
        let mut devices = taken.devices;
        devices.push(device);
        proof {
            let after = device_views(devices@);
            assert(after =~= device_views(before).push(device@));
            assert(after.drop_last() =~= device_views(before));
            assert(devices.len() == before.len() + 1);
        }
        *self = DiscoverySession {
            devices,
            supported: if supported {
                count + 1
            } else {
                count
            },
            errors,
        };
        true
    }

    /// Takes note of the device that a report tells of; `true` where it is the first at its
    /// address.
    pub fn record_report(&mut self, report: &DiscoveryReport) -> (r: Result<bool, Error>)
        ensures
            match report_outcome(report@) {
                Ok(device) => {
                    &&& r == Ok::<bool, Error>(!found_at(old(self)@.devices, device.ip))
                    &&& final(self)@ == after_response(old(self)@, Response::Device(device))
                },
                Err(e) => {
                    &&& r matches Err(f) && f@ == e
                    &&& final(self)@ == old(self)@
                },
            },
    {
        match discovered_device_from_result(report) {
            Ok(device) => Ok(self.record(device)),
            Err(e) => Err(e),
        }
    }

    /// Takes note of an error.
    pub fn record_error(&mut self)
        requires
            old(self)@.errors < u64::MAX,
        ensures
            final(self)@ == after_response(old(self)@, Response::Failure),
    {
        proof {
            use_type_invariant(&*self);
        }
        self.errors = self.errors + 1;
    }
}

impl Default for DiscoverySession {
    fn default() -> (r: Self)
        ensures
            r@ == (DiscoverySessionView {
                devices: Seq::<DiscoveredDeviceView>::empty(),
                errors: 0,
            }),
    {
        DiscoverySession::new()
    }
}

// Laws

/// A report of an address is read whatever else it says, and the address is kept.
pub proof fn law_addresses_are_read(report: DiscoveryReportView, ip: IpAddr)
    requires
        report.ip == address::ip_text(ip),
    ensures
        report_outcome(report) matches Ok(d) && d.ip == ip && d.supported_model
            == model::model_value(report.model),
{
    address::law_ip_round_trip(ip);
}

/// Taking note of one more answer keeps what is kept of all the answers.
pub proof fn law_recording_keeps(
    answers: Seq<DiscoveredDeviceView>,
    device: DiscoveredDeviceView,
)
    ensures
        kept(answers.push(device)) == with_device(kept(answers), device),
{
    assert(answers.push(device).drop_last() =~= answers);
}

/// An error ends nothing: whatever errors come in between, the devices that are kept are those kept
/// of all that answered, and the errors are counted.
pub proof fn law_errors_do_not_end_a_scan(responses: Seq<Response>)
    ensures
        after_responses(responses).devices == kept(answers_in(responses)),
        after_responses(responses).errors == failures_in(responses),
        addresses_differ(after_responses(responses).devices),
        forall|i: int|
            0 <= i < responses.len() ==> (#[trigger] responses[i] matches Response::Device(device)
                ==> found_at(after_responses(responses).devices, device.ip)),
    decreases responses.len(),
{
    let failed = |r: Response| r is Failure;
    if responses.len() == 0 {
        assert(responses.filter(failed).len() == 0) by {
            reveal(Seq::filter);
        }
    } else {
        let front = responses.drop_last();
        let last = responses.last();
        let before = after_responses(front).devices;
        let now = after_responses(responses).devices;
        law_errors_do_not_end_a_scan(front);
        assert(front.push(last) =~= responses);
        front.lemma_filter_push(last, failed);
        if let Response::Device(device) = last {
            law_recording_keeps(answers_in(front), device);
        }
        assert forall|i: int| 0 <= i < responses.len() implies (
        #[trigger] responses[i] matches Response::Device(device) ==> found_at(now, device.ip)) by {
            if let Response::Device(device) = responses[i] {
                if i < front.len() {
                    assert(front[i] == responses[i]);
                    let k = choose|k: int| 0 <= k < before.len() && (#[trigger] before[k]).ip
                        == device.ip;
                    assert(now[k] == before[k]);
                } else if !found_at(before, device.ip) {
                    assert(now[before.len() as int].ip == device.ip);
                }
            }
        }
    }
    law_kept_addresses_differ(answers_in(responses));
}

/// However often devices answer, no two that are kept have the same address.
pub proof fn law_kept_addresses_differ(answers: Seq<DiscoveredDeviceView>)
    ensures
        addresses_differ(kept(answers)),
    decreases answers.len(),
{
    if answers.len() > 0 {
        law_kept_addresses_differ(answers.drop_last());
    }
}

/// The first device to answer from an address is kept, and it is the one that is kept for it.
pub proof fn law_first_answer_is_kept(answers: Seq<DiscoveredDeviceView>, n: int)
    requires
        0 <= n < answers.len(),
        forall|i: int| 0 <= i < n ==> (#[trigger] answers[i]).ip != answers[n].ip,
    ensures
        kept(answers).contains(answers[n]),
    decreases answers.len(),
{
    let front = answers.drop_last();
    if n < front.len() {
        assert forall|i: int| 0 <= i < n implies (#[trigger] front[i]).ip != front[n].ip by {
            assert(answers[i].ip != answers[n].ip);
        }
        law_first_answer_is_kept(front, n);
        let k = choose|k: int| 0 <= k < kept(front).len() && kept(front)[k] == answers[n];
        assert(kept(answers)[k] == answers[n]);
    } else {
        law_kept_devices_answered(front);
        if found_at(kept(front), answers[n].ip) {
            let k = choose|k: int| 0 <= k < kept(front).len() && (#[trigger] kept(front)[k]).ip
                == answers[n].ip;
            let i = choose|i: int| 0 <= i < front.len() && #[trigger] front[i] == kept(front)[k];
            assert(answers[i].ip == answers[n].ip);
        }
        let all = kept(answers);
        assert(all[all.len() - 1] == answers[n]);
    }
}

/// Every device that is kept answered.
pub proof fn law_kept_devices_answered(answers: Seq<DiscoveredDeviceView>)
    ensures
        forall|k: int|
            0 <= k < kept(answers).len() ==> answers.contains(#[trigger] kept(answers)[k]),
    decreases answers.len(),
{
    if answers.len() > 0 {
        let front = answers.drop_last();
        law_kept_devices_answered(front);
        assert forall|k: int| 0 <= k < kept(answers).len() implies answers.contains(
            #[trigger] kept(answers)[k],
        ) by {
            if k < kept(front).len() {
                let i = choose|i: int| 0 <= i < front.len() && front[i] == kept(front)[k];
                assert(answers[i] == kept(answers)[k]);
            } else {
                assert(answers[answers.len() - 1] == kept(answers)[k]);
            }
        }
    }
}

/// A report is read exactly where its address is one, and then all that it says is kept; any other
/// is refused by what stands for its address.
pub proof fn law_reports(report: DiscoveryReportView)
    ensures
        address::ip_value(report.ip) matches Some(ip) ==> (report_outcome(report) matches Ok(d) && {
            &&& d.ip == ip
            &&& d.model == report.model
            &&& d.nickname == report.nickname
            &&& d.device_type == report.device_type
            &&& d.supported_model == model::model_value(report.model)
        }),
        address::ip_value(report.ip) is None ==> report_outcome(report) == Err::<
            DiscoveredDeviceView,
            _,
        >(ErrorView::InvalidReportedAddress { ip: report.ip }),
{
}

/// A scan may wait for one second to sixty.
pub proof fn law_discovery_timeouts(seconds: u64)
    ensures
        is_discovery_timeout(seconds) <==> seconds >= 1 && seconds <= 60,
{
}

/// A device is kept, at the end, exactly where none at its address is kept already.
pub proof fn law_one_more_device(
    devices: Seq<DiscoveredDeviceView>,
    device: DiscoveredDeviceView,
)
    ensures
        (exists|i: int| 0 <= i < devices.len() && (#[trigger] devices[i]).ip == device.ip)
            ==> with_device(devices, device) == devices,
        (forall|i: int| 0 <= i < devices.len() ==> (#[trigger] devices[i]).ip != device.ip)
            ==> with_device(devices, device) == devices.push(device),
        found_at(devices, device.ip) <==> exists|i: int|
            0 <= i < devices.len() && (#[trigger] devices[i]).ip == device.ip,
        kept(Seq::empty()).len() == 0,
{
}

/// The devices that can be controlled are those with a model that can be.
pub proof fn law_supported_devices_are_counted(devices: Seq<DiscoveredDeviceView>)
    ensures
        supported_in(devices) == devices.filter(
            |d: DiscoveredDeviceView| d.supported_model is Some,
        ).len(),
    decreases devices.len(),
{
    let can = |d: DiscoveredDeviceView| d.supported_model is Some;
    reveal(Seq::filter);
    if devices.len() > 0 {
        law_supported_devices_are_counted(devices.drop_last());
    }
}

/// A device that answers leaves the errors as they are, and an error the devices.
pub proof fn law_one_more_response(session: DiscoverySessionView, device: DiscoveredDeviceView)
    ensures
        after_response(session, Response::Device(device)).devices == with_device(
            session.devices,
            device,
        ),
        after_response(session, Response::Device(device)).errors == session.errors,
        after_response(session, Response::Failure).devices == session.devices,
        after_response(session, Response::Failure).errors == session.errors + 1,
{
}

/// The views of a report and of a device show their fields as they are, and that of a list each
/// device in turn.
pub proof fn law_reports_and_devices_show_their_fields(
    report: DiscoveryReport,
    devices: Seq<DiscoveredDevice>,
)
    ensures
        report@.ip == report.ip@,
        report@.model == report.model@,
        report@.nickname == report.nickname@,
        report@.device_type == report.device_type@,
        device_views(devices).len() == devices.len(),
        forall|i: int|
            0 <= i < devices.len() ==> {
                let d = #[trigger] device_views(devices)[i];
                &&& d.ip == devices[i].ip
                &&& d.model == devices[i].model@
                &&& d.nickname == devices[i].nickname@
                &&& d.device_type == devices[i].device_type@
                &&& d.supported_model == devices[i].supported_model
            },
{
}

} // verus!
