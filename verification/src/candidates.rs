//! Which of the devices that a scan found can be added to the registry, and adding them.
use vstd::prelude::*;
use vstd::string::StringExecFns;

use crate::address;
use crate::address::IpAddr;
use crate::devices;
use crate::devices::DeviceConfig;
use crate::discovery;
use crate::discovery::{DiscoveredDevice, DiscoveredDeviceView};
use crate::error::{Error, ErrorView};
use crate::model::DeviceModel;
use crate::naming;
use crate::registry;
use crate::registry::{add_device, Config};
use crate::text;

verus! {

/// A discovered device that can be added, under the name that it would get.
#[derive(Debug, Clone, PartialEq, Eq)]
pub struct DiscoveryAddCandidate {
    pub name: String,
    pub ip: IpAddr,
    pub model: DeviceModel,
    pub label: String,
}

/// A candidate with its texts as sequences of characters.
pub struct DiscoveryAddCandidateView {
    pub name: Seq<char>,
    pub ip: IpAddr,
    pub model: DeviceModel,
    pub label: Seq<char>,
}

impl View for DiscoveryAddCandidate {
    type V = DiscoveryAddCandidateView;

    open spec fn view(&self) -> DiscoveryAddCandidateView {
        DiscoveryAddCandidateView {
            name: self.name@,
            ip: self.ip,
            model: self.model,
            label: self.label@,
        }
    }
}

/// The views of the candidates.
pub open spec fn candidate_views(candidates: Seq<DiscoveryAddCandidate>) -> Seq<
    DiscoveryAddCandidateView,
> {
    candidates.map_values(|c: DiscoveryAddCandidate| c@)
}

/// What a device calls itself, in lower case.
#[derive(Debug, Clone, PartialEq, Eq)]
pub struct LoweredTexts {
    pub nickname: Vec<char>,
    pub model: Vec<char>,
}

/// What a device calls itself, in lower case, as sequences of characters.
pub struct LoweredTextsView {
    pub nickname: Seq<char>,
    pub model: Seq<char>,
}

impl View for LoweredTexts {
    type V = LoweredTextsView;

    open spec fn view(&self) -> LoweredTextsView {
        LoweredTextsView { nickname: self.nickname@, model: self.model@ }
    }
}

/// The views of the texts.
pub open spec fn lowered_views(texts: Seq<LoweredTexts>) -> Seq<LoweredTextsView> {
    texts.map_values(|t: LoweredTexts| t@)
}

/// What the devices call themselves, in lower case.
pub open spec fn lowered_texts(found: Seq<DiscoveredDeviceView>) -> Seq<LoweredTextsView> {
    found.map_values(
        |d: DiscoveredDeviceView|
            LoweredTextsView {
                nickname: naming::lowered(d.nickname),
                model: naming::lowered(d.model),
            },
    )
}

/// What the devices call themselves, with every ASCII capital made small.
pub open spec fn ascii_lowered_texts(found: Seq<DiscoveredDeviceView>) -> Seq<LoweredTextsView> {
    found.map_values(
        |d: DiscoveredDeviceView|
            LoweredTextsView {
                nickname: text::ascii_lowered(d.nickname),
                model: text::ascii_lowered(d.model),
            },
    )
}

/// Whether all that the devices call themselves is ASCII.
pub open spec fn all_in_ascii(found: Seq<DiscoveredDeviceView>) -> bool {
    forall|i: int|
        0 <= i < found.len() ==> naming::all_ascii((#[trigger] found[i]).nickname)
            && naming::all_ascii(found[i].model)
}

/// How a candidate reads in a list to choose from.
pub open spec fn label_text(device: DiscoveredDeviceView, name: Seq<char>) -> Seq<char> {
    device.nickname + " ("@ + device.model + ") at "@ + address::ip_text(device.ip) + " -> "@ + name
}

/// The candidates so far, and the registry as it would be with all of them in it.
pub struct Proposal {
    pub candidates: Seq<DiscoveryAddCandidateView>,
    pub reserved: Map<Seq<char>, DeviceConfig>,
}

/// The candidates among the devices found, whose texts read as given in lower case: those that can
/// be controlled and whose address is neither in the registry nor that of an earlier candidate.
pub open spec fn proposal(
    registered: Map<Seq<char>, DeviceConfig>,
    found: Seq<DiscoveredDeviceView>,
    lowered: Seq<LoweredTextsView>,
) -> Proposal
    decreases found.len(),
{
    if found.len() == 0 {
        Proposal { candidates: Seq::empty(), reserved: registered }
    } else {
        let before = proposal(registered, found.drop_last(), lowered.drop_last());
        let device = found.last();
        match device.supported_model {
            None => before,
            Some(model) => if devices::has_address(before.reserved, device.ip) {
                before
            } else {
                let name = naming::device_name(
                    before.reserved.dom(),
                    lowered.last().nickname,
                    lowered.last().model,
                    device.ip,
                );
                Proposal {
                    candidates: before.candidates.push(
                        DiscoveryAddCandidateView {
                            name,
                            ip: device.ip,
                            model,
                            label: label_text(device, name),
                        },
                    ),
                    reserved: before.reserved.insert(name, DeviceConfig { ip: device.ip, model }),
                }
            },
        }
    }
}

/// How a candidate reads in a list to choose from.
fn candidate_label(device: &DiscoveredDevice, name: &str) -> (r: String)
    ensures
        r@ == label_text(device@, name@),
{
    let mut out = device.nickname.clone();
    out.append(" (");
    out.append(&device.model);
    out.append(") at ");
    device.ip.push_text(&mut out);
    out.append(" -> ");
    out.append(name);
    out
}

/// The candidates among the devices found, whose texts are given in lower case.
pub fn candidates_from_lowered(
    config: &Config,
    found: &[DiscoveredDevice],
    lowered: &[LoweredTexts],
) -> (r: Vec<DiscoveryAddCandidate>)
    requires
        found@.len() == lowered@.len(),
    ensures
        candidate_views(r@) == proposal(
            config@.devices,
            discovery::device_views(found@),
            lowered_views(lowered@),
        ).candidates,
{
    let mut candidate_config = config.clone();
    let mut candidates: Vec<DiscoveryAddCandidate> = Vec::new();
    let ghost all = discovery::device_views(found@);
    let ghost texts = lowered_views(lowered@);
    let mut i: usize = 0;
    proof {
        assert(candidate_views(candidates@) =~= Seq::<DiscoveryAddCandidateView>::empty());
    }
    while i < found.len()
        invariant
            i <= found.len(),
            found@.len() == lowered@.len(),
            all == discovery::device_views(found@),
            texts == lowered_views(lowered@),
            ({
                let p = proposal(config@.devices, all.take(i as int), texts.take(i as int));
                &&& candidate_views(candidates@) == p.candidates
                &&& candidate_config@.devices == p.reserved
            }),
        decreases found.len() - i,
    {
        let device = &found[i];
        let texts_lowered = &lowered[i];
        proof {
            assert(all.take(i + 1).drop_last() =~= all.take(i as int));
            assert(all.take(i + 1).last() == device@);
            assert(texts.take(i + 1).drop_last() =~= texts.take(i as int));
            assert(texts.take(i + 1).last() == texts_lowered@);
        }
        i += 1;
        if let Some(model) = device.supported_model {
            if candidate_config.devices.has_address(device.ip) {
                continue ;
            }
            let name = naming::name_from_lowered(
                &candidate_config,
                &texts_lowered.nickname,
                &texts_lowered.model,
                device.ip,
            );
            let label = candidate_label(device, &name);
            let ghost before = candidates@;
            let candidate = DiscoveryAddCandidate {
                name: name.clone(),
                ip: device.ip,
                model,
                label,
            };
            candidates.push(candidate);
            let _ = candidate_config.devices.insert(name, DeviceConfig { ip: device.ip, model });
            proof {
                assert(candidate_views(candidates@) =~= candidate_views(before).push(candidate@));
            }
        }
    }
    proof {
        assert(all.take(all.len() as int) =~= all);
        assert(texts.take(texts.len() as int) =~= texts);
    }
    candidates
}

/// The candidates among the devices found.
pub fn discovery_add_candidates(config: &Config, found: &[DiscoveredDevice]) -> (r: Vec<
    DiscoveryAddCandidate,
>)
    ensures
        candidate_views(r@) == proposal(
            config@.devices,
            discovery::device_views(found@),
            lowered_texts(discovery::device_views(found@)),
        ).candidates,
        all_in_ascii(discovery::device_views(found@)) ==> candidate_views(r@) == proposal(
            config@.devices,
            discovery::device_views(found@),
            ascii_lowered_texts(discovery::device_views(found@)),
        ).candidates,
{
    let ghost all = discovery::device_views(found@);
    let mut lowered: Vec<LoweredTexts> = Vec::new();
    let mut i: usize = 0;
    while i < found.len()
        invariant
            i <= found.len(),
            lowered@.len() == i,
            all == discovery::device_views(found@),
            forall|k: int|
                0 <= k < i ==> (#[trigger] lowered@[k])@ == lowered_texts(all)[k],
            all_in_ascii(all) ==> forall|k: int|
                0 <= k < i ==> (#[trigger] lowered@[k])@ == ascii_lowered_texts(all)[k],
        decreases found.len() - i,
    {
        proof {
            assert(all[i as int] == found@[i as int]@);
        }
        lowered.push(
            LoweredTexts {
                nickname: naming::lowered_chars(&found[i].nickname),
                model: naming::lowered_chars(&found[i].model),
            },
        );
        i += 1;
    }
    proof {
        assert(lowered_views(lowered@) =~= lowered_texts(all));
        if all_in_ascii(all) {
            assert(lowered_views(lowered@) =~= ascii_lowered_texts(all));
        }
    }
    candidates_from_lowered(config, found, &lowered)
}

// Adding

/// What adding candidates comes to: the registry, the names added, and the error that ended it.
pub struct Addition {
    pub registered: Map<Seq<char>, DeviceConfig>,
    pub added: Seq<Seq<char>>,
    pub error: Option<ErrorView>,
}

/// Adding the selected candidates in order, up to the first that cannot be added.
pub open spec fn addition(
    registered: Map<Seq<char>, DeviceConfig>,
    candidates: Seq<DiscoveryAddCandidateView>,
    selected: Seq<usize>,
) -> Addition
    decreases selected.len(),
{
    if selected.len() == 0 {
        Addition { registered, added: Seq::empty(), error: None }
    } else {
        let before = addition(registered, candidates, selected.drop_last());
        let index = selected.last();
        if before.error is Some {
            before
        } else if index >= candidates.len() {
            Addition { error: Some(ErrorView::CandidateOutOfRange { index }), ..before }
        } else {
            let c = candidates[index as int];
            match registry::add_outcome(before.registered, c.name, false) {
                Err(e) => Addition { error: Some(e), ..before },
                Ok(()) => Addition {
                    registered: before.registered.insert(
                        c.name,
                        DeviceConfig { ip: c.ip, model: c.model },
                    ),
                    added: before.added.push(c.name),
                    error: None,
                },
            }
        }
    }
}

/// The characters of each name.
pub open spec fn name_texts(names: Seq<String>) -> Seq<Seq<char>> {
    names.map_values(|n: String| n@)
}

/// An error on the way is the error in the end.
proof fn lemma_addition_stops(
    registered: Map<Seq<char>, DeviceConfig>,
    candidates: Seq<DiscoveryAddCandidateView>,
    selected: Seq<usize>,
    n: int,
)
    requires
        0 <= n <= selected.len(),
        addition(registered, candidates, selected.take(n)).error is Some,
    ensures
        addition(registered, candidates, selected) == addition(
            registered,
            candidates,
            selected.take(n),
        ),
    decreases selected.len() - n,
{
    if n == selected.len() {
        assert(selected.take(n) =~= selected);
    } else {
        assert(selected.take(n + 1).drop_last() =~= selected.take(n));
        lemma_addition_stops(registered, candidates, selected, n + 1);
    }
}

/// Adds the selected candidates to the registry and hands back their names. Candidates that come
/// before one that cannot be added stay in the registry.
pub fn add_discovery_candidates(
    config: &mut Config,
    candidates: &[DiscoveryAddCandidate],
    selected_indices: &[usize],
) -> (r: Result<Vec<String>, Error>)
    ensures
        ({
            let a = addition(
                old(config)@.devices,
                candidate_views(candidates@),
                selected_indices@,
            );
            &&& final(config)@.devices == a.registered
            &&& final(config)@.username == old(config)@.username
            &&& match r {
                Ok(names) => a.error is None && name_texts(names@) == a.added,
                Err(e) => a.error == Some(e@),
            }
        }),
{
    let mut added_names: Vec<String> = Vec::new();
    let ghost start = config@;
    let ghost all = candidate_views(candidates@);
    let mut i: usize = 0;
    proof {
        assert(name_texts(added_names@) =~= Seq::<Seq<char>>::empty());
    }
    while i < selected_indices.len()
        invariant
            i <= selected_indices.len(),
            all == candidate_views(candidates@),
            start == old(config)@,
            config@.username == start.username,
            ({
                let a = addition(start.devices, all, selected_indices@.take(i as int));
                &&& config@.devices == a.registered
                &&& name_texts(added_names@) == a.added
                &&& a.error is None
            }),
        decreases selected_indices.len() - i,
    {
        let index = selected_indices[i];
        proof {
            let p = selected_indices@.take(i + 1);
            assert(p.drop_last() =~= selected_indices@.take(i as int));
            assert(p.last() == index);
        }
        if index >= candidates.len() {
            proof {
                lemma_addition_stops(start.devices, all, selected_indices@, i + 1);
            }
            return Err(Error::CandidateOutOfRange { index });
        }
        let candidate = &candidates[index];
        proof {
            assert(all[index as int] == candidate@);
        }
        match add_device(
            config,
            candidate.name.clone(),
            DeviceConfig { ip: candidate.ip, model: candidate.model },
            false,
        ) {
            Err(e) => {
                proof {
                    lemma_addition_stops(start.devices, all, selected_indices@, i + 1);
                }
                return Err(e);
            },
            Ok(()) => {},
        }
        let ghost before = added_names@;
        added_names.push(candidate.name.clone());
        proof {
            assert(name_texts(added_names@) =~= name_texts(before).push(candidate.name@));
        }
        i += 1;
    }
    proof {
        assert(selected_indices@.take(selected_indices@.len() as int) =~= selected_indices@);
    }
    Ok(added_names)
}

/// The indices of that many candidates.
pub open spec fn indices(count: nat) -> Seq<usize> {
    Seq::new(count, |i: int| i as usize)
}

/// The indices of that many candidates.
pub fn all_indices(count: usize) -> (r: Vec<usize>)
    ensures
        r@ == indices(count as nat),
{
    let mut out: Vec<usize> = Vec::new();
    let mut i: usize = 0;
    while i < count
        invariant
            i <= count,
            out@ == indices(i as nat),
        decreases count - i,
    {
        out.push(i);
        i += 1;
        proof {
            assert(out@ =~= indices(i as nat));
        }
    }
    out
}

/// Whether to ask which candidates to add: unless told not to, and only where someone can answer.
pub fn should_prompt_for_discovery_adds(
    no_interactive: bool,
    stdin_is_terminal: bool,
    stdout_is_terminal: bool,
) -> (r: bool)
    ensures
        r == (!no_interactive && stdin_is_terminal && stdout_is_terminal),
{
    !no_interactive && stdin_is_terminal && stdout_is_terminal
}

/// What to do with the candidates of a scan.
#[derive(Debug, Clone, Copy, PartialEq, Eq, Structural)]
pub enum AdditionPlan {
    /// Add every candidate.
    AddAll,
    /// Let the user choose.
    Choose,
    /// Tell the user that there is nothing to choose from.
    NothingToChoose,
    /// Tell the user how the candidates could be added.
    Hint,
    /// Nothing.
    Pass,
}

/// What to do with that many candidates.
pub open spec fn plan_for(add_supported: bool, prompt: bool, count: nat) -> AdditionPlan {
    if add_supported {
        AdditionPlan::AddAll
    } else if prompt {
        if count == 0 {
            AdditionPlan::NothingToChoose
        } else {
            AdditionPlan::Choose
        }
    } else if count > 0 {
        AdditionPlan::Hint
    } else {
        AdditionPlan::Pass
    }
}

/// What to do with that many candidates.
pub fn addition_plan(add_supported: bool, prompt: bool, count: usize) -> (r: AdditionPlan)
    ensures
        r == plan_for(add_supported, prompt, count as nat),
{
    if add_supported {
        AdditionPlan::AddAll
    } else if prompt {
        if count == 0 {
            AdditionPlan::NothingToChoose
        } else {
            AdditionPlan::Choose
        }
    } else if count > 0 {
        AdditionPlan::Hint
    } else {
        AdditionPlan::Pass
    }
}

// Laws

/// What holds of the candidates and of the registry with all of them in it.
pub open spec fn fits(registered: Map<Seq<char>, DeviceConfig>, p: Proposal) -> bool {
    &&& p.reserved.dom().finite()
    &&& forall|i: int|
        0 <= i < p.candidates.len() ==> {
            let c = #[trigger] p.candidates[i];
            &&& registry::is_valid_name(c.name)
            &&& !registered.contains_key(c.name)
            &&& !devices::has_address(registered, c.ip)
            &&& p.reserved.contains_key(c.name)
            &&& p.reserved[c.name] == (DeviceConfig { ip: c.ip, model: c.model })
        }
    &&& forall|i: int, j: int|
        0 <= i < j < p.candidates.len() ==> {
            &&& (#[trigger] p.candidates[i]).name != (#[trigger] p.candidates[j]).name
            &&& p.candidates[i].ip != p.candidates[j].ip
        }
    &&& forall|n: Seq<char>| #[trigger]
        registered.contains_key(n) ==> p.reserved.contains_key(n) && p.reserved[n] == registered[n]
    &&& forall|n: Seq<char>| #[trigger]
        p.reserved.contains_key(n) ==> registered.contains_key(n) || exists|i: int|
            0 <= i < p.candidates.len() && (#[trigger] p.candidates[i]).name == n
}

/// The candidates have valid names that are new to the registry and differ from each other, and
/// addresses that are new to the registry and differ from each other. The registry with all of them
/// in it holds what it held, the candidates, and nothing else.
pub proof fn law_candidates_fit_the_registry(
    registered: Map<Seq<char>, DeviceConfig>,
    found: Seq<DiscoveredDeviceView>,
    lowered: Seq<LoweredTextsView>,
)
    requires
        registered.dom().finite(),
        found.len() == lowered.len(),
    ensures
        fits(registered, proposal(registered, found, lowered)),
    decreases found.len(),
{
    if found.len() > 0 {
        let before = proposal(registered, found.drop_last(), lowered.drop_last());
        law_candidates_fit_the_registry(registered, found.drop_last(), lowered.drop_last());
        let device = found.last();
        if device.supported_model is Some && !devices::has_address(before.reserved, device.ip) {
            let p = proposal(registered, found, lowered);
            let names = before.reserved.dom();
            let texts = lowered.last();
            let name = naming::device_name(names, texts.nickname, texts.model, device.ip);
            naming::law_device_name_is_valid(names, texts.nickname, texts.model, device.ip);
            naming::law_device_name_is_unused(names, texts.nickname, texts.model, device.ip);
            assert(!before.reserved.contains_key(name));
            let last = before.candidates.len() as int;
            assert(p.candidates[last].name == name);
            assert forall|i: int| 0 <= i < p.candidates.len() implies ({
                let c = #[trigger] p.candidates[i];
                &&& registry::is_valid_name(c.name)
                &&& !registered.contains_key(c.name)
                &&& !devices::has_address(registered, c.ip)
                &&& p.reserved.contains_key(c.name)
                &&& p.reserved[c.name] == (DeviceConfig { ip: c.ip, model: c.model })
            }) by {
                if i < last {
                    assert(p.candidates[i] == before.candidates[i]);
                } else {
                    if devices::has_address(registered, device.ip) {
                        let n = choose|n: Seq<char>| #[trigger]
                            registered.contains_key(n) && registered[n].ip == device.ip;
                        assert(before.reserved.contains_key(n) && before.reserved[n].ip
                            == device.ip);
                    }
                }
            }
            assert forall|i: int, j: int| 0 <= i < j < p.candidates.len() implies {
                &&& (#[trigger] p.candidates[i]).name != (#[trigger] p.candidates[j]).name
                &&& p.candidates[i].ip != p.candidates[j].ip
            } by {
                let c = before.candidates[i];
                assert(p.candidates[i] == c);
                if j == last {
                    assert(before.reserved.contains_key(c.name));
                    assert(before.reserved[c.name].ip == c.ip);
                } else {
                    assert(p.candidates[j] == before.candidates[j]);
                }
            }
            assert forall|n: Seq<char>| #[trigger] p.reserved.contains_key(n) implies
                registered.contains_key(n) || exists|i: int|
                0 <= i < p.candidates.len() && (#[trigger] p.candidates[i]).name == n by {
                if n != name {
                    assert(before.reserved.contains_key(n));
                    if !registered.contains_key(n) {
                        let i = choose|i: int|
                            0 <= i < before.candidates.len() && (
                            #[trigger] before.candidates[i]).name == n;
                        assert(p.candidates[i].name == n);
                    }
                }
            }
        }
    }
}

/// Every discovered device that can be controlled is in the registry with all candidates in it: by
/// an entry that was there or as a candidate.
pub proof fn law_supported_devices_are_offered(
    registered: Map<Seq<char>, DeviceConfig>,
    found: Seq<DiscoveredDeviceView>,
    lowered: Seq<LoweredTextsView>,
    k: int,
)
    requires
        registered.dom().finite(),
        found.len() == lowered.len(),
        0 <= k < found.len(),
        found[k].supported_model is Some,
    ensures
        devices::has_address(registered, found[k].ip) || exists|i: int|
            0 <= i < proposal(registered, found, lowered).candidates.len() && (
            #[trigger] proposal(registered, found, lowered).candidates[i]).ip == found[k].ip,
{
    let p = proposal(registered, found, lowered);
    lemma_supported_is_reserved(registered, found, lowered, k);
    law_candidates_fit_the_registry(registered, found, lowered);
    let n = choose|n: Seq<char>| #[trigger]
        p.reserved.contains_key(n) && p.reserved[n].ip == found[k].ip;
    if registered.contains_key(n) {
        assert(registered[n].ip == found[k].ip);
    } else {
        let i = choose|i: int| 0 <= i < p.candidates.len() && (#[trigger] p.candidates[i]).name
            == n;
        assert(p.candidates[i].ip == found[k].ip);
    }
}

proof fn lemma_supported_is_reserved(
    registered: Map<Seq<char>, DeviceConfig>,
    found: Seq<DiscoveredDeviceView>,
    lowered: Seq<LoweredTextsView>,
    k: int,
)
    requires
        registered.dom().finite(),
        found.len() == lowered.len(),
        0 <= k < found.len(),
        found[k].supported_model is Some,
    ensures
        devices::has_address(proposal(registered, found, lowered).reserved, found[k].ip),
    decreases found.len(),
{
    let front = found.drop_last();
    let before = proposal(registered, front, lowered.drop_last());
    let p = proposal(registered, found, lowered);
    let device = found.last();
    let texts = lowered.last();
    law_candidates_fit_the_registry(registered, front, lowered.drop_last());
    let name = naming::device_name(
        before.reserved.dom(),
        texts.nickname,
        texts.model,
        device.ip,
    );
    naming::law_device_name_is_unused(
        before.reserved.dom(),
        texts.nickname,
        texts.model,
        device.ip,
    );
    if k < front.len() {
        lemma_supported_is_reserved(registered, front, lowered.drop_last(), k);
        let n = choose|n: Seq<char>| #[trigger]
            before.reserved.contains_key(n) && before.reserved[n].ip == found[k].ip;
        assert(p.reserved.contains_key(n) && p.reserved[n].ip == found[k].ip);
    } else if !devices::has_address(before.reserved, device.ip) {
        assert(p.reserved.contains_key(name) && p.reserved[name].ip == device.ip);
    }
}

/// Every candidate is a discovered device that can be controlled, at its address, under its model
/// and labelled with what it calls itself.
pub proof fn law_candidates_were_found(
    registered: Map<Seq<char>, DeviceConfig>,
    found: Seq<DiscoveredDeviceView>,
    lowered: Seq<LoweredTextsView>,
    i: int,
)
    requires
        found.len() == lowered.len(),
        0 <= i < proposal(registered, found, lowered).candidates.len(),
    ensures
        ({
            let c = proposal(registered, found, lowered).candidates[i];
            exists|k: int|
                0 <= k < found.len() && (#[trigger] found[k]).ip == c.ip && found[k].supported_model
                    == Some(c.model) && c.label == label_text(found[k], c.name)
        }),
    decreases found.len(),
{
    let c = proposal(registered, found, lowered).candidates[i];
    let front = found.drop_last();
    let before = proposal(registered, front, lowered.drop_last());
    if i < before.candidates.len() {
        law_candidates_were_found(registered, front, lowered.drop_last(), i);
        let k = choose|k: int|
            0 <= k < front.len() && (#[trigger] front[k]).ip == c.ip && front[k].supported_model
                == Some(c.model) && c.label == label_text(front[k], c.name);
        assert(found[k] == front[k]);
    } else {
        assert(found[found.len() - 1].ip == c.ip);
    }
}

/// Whether the indices are within range and none occurs twice.
pub open spec fn is_selection(selected: Seq<usize>, count: nat) -> bool {
    &&& forall|k: int| 0 <= k < selected.len() ==> (#[trigger] selected[k]) < count
    &&& forall|k: int, l: int|
        0 <= k < l < selected.len() ==> (#[trigger] selected[k]) != (#[trigger] selected[l])
}

/// Any selection of the candidates can be added. The names added are theirs, in order; each is then
/// in the registry with its address and model, and every other name is as it was.
pub proof fn law_any_selection_can_be_added(
    registered: Map<Seq<char>, DeviceConfig>,
    found: Seq<DiscoveredDeviceView>,
    lowered: Seq<LoweredTextsView>,
    selected: Seq<usize>,
)
    requires
        registered.dom().finite(),
        found.len() == lowered.len(),
        is_selection(selected, proposal(registered, found, lowered).candidates.len()),
    ensures
        ({
            let candidates = proposal(registered, found, lowered).candidates;
            let a = addition(registered, candidates, selected);
            &&& a.error is None
            &&& a.added.len() == selected.len()
            &&& forall|k: int|
                0 <= k < selected.len() ==> {
                    let c = candidates[(#[trigger] selected[k]) as int];
                    &&& a.added[k] == c.name
                    &&& a.registered.contains_key(c.name)
                    &&& a.registered[c.name] == (DeviceConfig { ip: c.ip, model: c.model })
                }
            &&& forall|n: Seq<char>|
                !a.added.contains(n) ==> {
                    &&& #[trigger] a.registered.contains_key(n) == registered.contains_key(n)
                    &&& a.registered.contains_key(n) ==> a.registered[n] == registered[n]
                }
        }),
{
    let p = proposal(registered, found, lowered);
    law_candidates_fit_the_registry(registered, found, lowered);
    lemma_selection_is_added(registered, p, selected);
}

proof fn lemma_selection_is_added(
    registered: Map<Seq<char>, DeviceConfig>,
    p: Proposal,
    selected: Seq<usize>,
)
    requires
        fits(registered, p),
        is_selection(selected, p.candidates.len()),
    ensures
        ({
            let a = addition(registered, p.candidates, selected);
            &&& a.error is None
            &&& a.added.len() == selected.len()
            &&& forall|k: int|
                0 <= k < selected.len() ==> {
                    let c = p.candidates[(#[trigger] selected[k]) as int];
                    &&& a.added[k] == c.name
                    &&& a.registered.contains_key(c.name)
                    &&& a.registered[c.name] == (DeviceConfig { ip: c.ip, model: c.model })
                }
            &&& forall|n: Seq<char>|
                !a.added.contains(n) ==> {
                    &&& #[trigger] a.registered.contains_key(n) == registered.contains_key(n)
                    &&& a.registered.contains_key(n) ==> a.registered[n] == registered[n]
                }
        }),
    decreases selected.len(),
{
    let a = addition(registered, p.candidates, selected);
    if selected.len() > 0 {
        let front = selected.drop_last();
        assert forall|k: int| 0 <= k < front.len() implies (#[trigger] front[k])
            < p.candidates.len() by {
            assert(front[k] == selected[k]);
        }
        assert forall|k: int, l: int| 0 <= k < l < front.len() implies (#[trigger] front[k]) != (
        #[trigger] front[l]) by {
            assert(selected[k] != selected[l]);
        }
        lemma_selection_is_added(registered, p, front);
        let b = addition(registered, p.candidates, front);
        let last = selected.len() - 1;
        let c = p.candidates[selected[last] as int];
        if b.added.contains(c.name) {
            let k = choose|k: int| 0 <= k < b.added.len() && b.added[k] == c.name;
            assert(p.candidates[front[k] as int].name == c.name);
            assert(selected[k] != selected[last]);
            if selected[k] < selected[last] {
                assert(p.candidates[selected[k] as int].name != c.name);
            } else {
                assert(p.candidates[selected[k] as int].name != c.name);
            }
        }
        assert(!b.registered.contains_key(c.name));
        assert(a.added == b.added.push(c.name));
        assert forall|k: int| 0 <= k < selected.len() implies ({
            let c = p.candidates[(#[trigger] selected[k]) as int];
            &&& a.added[k] == c.name
            &&& a.registered.contains_key(c.name)
            &&& a.registered[c.name] == (DeviceConfig { ip: c.ip, model: c.model })
        }) by {
            if k < last {
                assert(front[k] == selected[k]);
                let d = p.candidates[front[k] as int];
                assert(b.registered.contains_key(d.name));
            }
        }
        assert forall|n: Seq<char>| !a.added.contains(n) implies {
            &&& #[trigger] a.registered.contains_key(n) == registered.contains_key(n)
            &&& a.registered.contains_key(n) ==> a.registered[n] == registered[n]
        } by {
            assert(a.added[last] == c.name);
            if b.added.contains(n) {
                let k = choose|k: int| 0 <= k < b.added.len() && b.added[k] == n;
                assert(a.added[k] == n);
            }
            assert(b.registered.contains_key(n) == registered.contains_key(n));
        }
    }
}

/// Adding every candidate puts all of them in the registry, so that the same devices are not
/// offered a second time.
pub proof fn law_nothing_is_offered_twice(
    registered: Map<Seq<char>, DeviceConfig>,
    found: Seq<DiscoveredDeviceView>,
    lowered: Seq<LoweredTextsView>,
)
    requires
        registered.dom().finite(),
        found.len() == lowered.len(),
        proposal(registered, found, lowered).candidates.len() <= usize::MAX,
    ensures
        ({
            let p = proposal(registered, found, lowered);
            let a = addition(registered, p.candidates, indices(p.candidates.len()));
            &&& a.error is None
            &&& a.registered == p.reserved
            &&& proposal(a.registered, found, lowered).candidates.len() == 0
        }),
{
    let p = proposal(registered, found, lowered);
    let all = indices(p.candidates.len());
    let a = addition(registered, p.candidates, all);
    law_candidates_fit_the_registry(registered, found, lowered);
    law_any_selection_can_be_added(registered, found, lowered, all);
    assert forall|n: Seq<char>| #[trigger] a.registered.contains_key(n)
        == p.reserved.contains_key(n) && (a.registered.contains_key(n) ==> a.registered[n]
        == p.reserved[n]) by {
        if a.added.contains(n) {
            let k = choose|k: int| 0 <= k < a.added.len() && a.added[k] == n;
            assert(all[k] == k);
            assert(p.candidates[k].name == n);
        } else if p.reserved.contains_key(n) && !registered.contains_key(n) {
            let i = choose|i: int| 0 <= i < p.candidates.len() && (#[trigger] p.candidates[i]).name
                == n;
            assert(all[i] == i);
            assert(a.added[i] == n);
        }
    }
    assert(a.registered.dom() =~= p.reserved.dom());
    assert(a.registered =~= p.reserved);
    assert forall|k: int| 0 <= k < found.len() && found[k].supported_model is Some implies
        devices::has_address(p.reserved, (#[trigger] found[k]).ip) by {
        lemma_supported_is_reserved(registered, found, lowered, k);
    }
    lemma_known_devices_are_skipped(p.reserved, found, lowered);
}

/// Devices whose addresses are in the registry are not offered.
proof fn lemma_known_devices_are_skipped(
    registered: Map<Seq<char>, DeviceConfig>,
    found: Seq<DiscoveredDeviceView>,
    lowered: Seq<LoweredTextsView>,
)
    requires
        found.len() == lowered.len(),
        forall|k: int|
            0 <= k < found.len() && found[k].supported_model is Some ==> devices::has_address(
                registered,
                (#[trigger] found[k]).ip,
            ),
    ensures
        proposal(registered, found, lowered).candidates.len() == 0,
        proposal(registered, found, lowered).reserved == registered,
    decreases found.len(),
{
    if found.len() > 0 {
        let front = found.drop_last();
        assert forall|k: int| 0 <= k < front.len() && front[k].supported_model is Some implies
            devices::has_address(registered, (#[trigger] front[k]).ip) by {
            assert(front[k] == found[k]);
        }
        lemma_known_devices_are_skipped(registered, front, lowered.drop_last());
        assert(found[found.len() - 1] == found.last());
    }
}

/// One more device makes one more candidate, at the end, exactly where it can be controlled and its
/// address is neither in the registry nor that of an earlier candidate. The candidate has the
/// device's address and model, and a label that says what the device calls itself, where it is and
/// what it would be called.
pub proof fn law_one_more_candidate(
    registered: Map<Seq<char>, DeviceConfig>,
    found: Seq<DiscoveredDeviceView>,
    lowered: Seq<LoweredTextsView>,
    device: DiscoveredDeviceView,
    texts: LoweredTextsView,
)
    requires
        found.len() == lowered.len(),
    ensures
        ({
            let before = proposal(registered, found, lowered);
            let after = proposal(registered, found.push(device), lowered.push(texts));
            let known = exists|n: Seq<char>| #[trigger]
                before.reserved.contains_key(n) && before.reserved[n].ip == device.ip;
            let name = naming::device_name(
                before.reserved.dom(),
                texts.nickname,
                texts.model,
                device.ip,
            );
            &&& device.supported_model is None ==> after == before
            &&& known ==> after == before
            &&& device.supported_model matches Some(model) ==> (!known ==> {
                &&& after.candidates.len() == before.candidates.len() + 1
                &&& after.candidates.drop_last() == before.candidates
                &&& after.candidates.last().name == name
                &&& after.candidates.last().ip == device.ip
                &&& after.candidates.last().model == model
                &&& after.candidates.last().label == device.nickname + " ("@ + device.model
                    + ") at "@ + address::ip_text(device.ip) + " -> "@ + name
                &&& after.reserved == before.reserved.insert(
                    name,
                    DeviceConfig { ip: device.ip, model },
                )
            })
        }),
        proposal(registered, Seq::empty(), Seq::empty()).candidates.len() == 0,
        proposal(registered, Seq::empty(), Seq::empty()).reserved == registered,
{
    let before = proposal(registered, found, lowered);
    let after = proposal(registered, found.push(device), lowered.push(texts));
    assert(found.push(device).drop_last() =~= found);
    assert(lowered.push(texts).drop_last() =~= lowered);
    if device.supported_model is Some && !devices::has_address(before.reserved, device.ip) {
        assert(after.candidates.drop_last() =~= before.candidates);
    }
}

/// A device whose address is in the registry is never a candidate.
pub proof fn law_configured_addresses_are_skipped(
    registered: Map<Seq<char>, DeviceConfig>,
    found: Seq<DiscoveredDeviceView>,
    lowered: Seq<LoweredTextsView>,
    name: Seq<char>,
    i: int,
)
    requires
        registered.dom().finite(),
        found.len() == lowered.len(),
        registered.contains_key(name),
        0 <= i < proposal(registered, found, lowered).candidates.len(),
    ensures
        proposal(registered, found, lowered).candidates[i].ip != registered[name].ip,
        proposal(registered, found, lowered).candidates[i].name != name,
{
    law_candidates_fit_the_registry(registered, found, lowered);
    let c = proposal(registered, found, lowered).candidates[i];
    assert(!devices::has_address(registered, c.ip));
}

/// One more selected index adds that candidate, under its name and with its address and model, where
/// there is one and its name is valid and free; otherwise it ends the addition with the error. After
/// an error nothing more is added.
pub proof fn law_one_more_selected(
    registered: Map<Seq<char>, DeviceConfig>,
    candidates: Seq<DiscoveryAddCandidateView>,
    selected: Seq<usize>,
    index: usize,
)
    ensures
        ({
            let before = addition(registered, candidates, selected);
            let after = addition(registered, candidates, selected.push(index));
            let c = candidates[index as int];
            &&& before.error is Some ==> after == before
            &&& before.error is None && index >= candidates.len() ==> {
                &&& after.error == Some(ErrorView::CandidateOutOfRange { index })
                &&& after.registered == before.registered
                &&& after.added == before.added
            }
            &&& before.error is None && index < candidates.len() ==> {
                &&& !registry::is_valid_name(c.name) ==> after.error == Some(
                    ErrorView::InvalidDeviceName,
                )
                &&& registry::is_valid_name(c.name) && before.registered.contains_key(c.name)
                    ==> after.error == Some(ErrorView::DeviceExists { name: c.name })
                &&& !registry::is_valid_name(c.name) || before.registered.contains_key(c.name)
                    ==> after.registered == before.registered && after.added == before.added
                &&& registry::is_valid_name(c.name) && !before.registered.contains_key(c.name) ==> {
                    &&& after.error is None
                    &&& after.added == before.added.push(c.name)
                    &&& after.registered == before.registered.insert(
                        c.name,
                        DeviceConfig { ip: c.ip, model: c.model },
                    )
                }
            }
        }),
        ({
            let nothing = addition(registered, candidates, Seq::empty());
            nothing.registered == registered && nothing.added.len() == 0 && nothing.error is None
        }),
{
    assert(selected.push(index).drop_last() =~= selected);
}

/// The indices of candidates count from 0.
pub proof fn law_indices(count: nat)
    requires
        count <= usize::MAX,
    ensures
        indices(count).len() == count,
        forall|i: int| 0 <= i < count ==> #[trigger] indices(count)[i] == i,
{
}

/// All candidates are added where that is asked for, and without asking anyone only then. The user
/// chooses where they can be asked and there is a candidate, and is told how to add candidates where
/// they cannot be asked.
pub proof fn law_addition_plans(prompt: bool, count: nat)
    ensures
        plan_for(true, prompt, count) == AdditionPlan::AddAll,
        count > 0 ==> plan_for(false, true, count) == AdditionPlan::Choose,
        count > 0 ==> plan_for(false, false, count) == AdditionPlan::Hint,
        plan_for(false, true, 0) == AdditionPlan::NothingToChoose,
        plan_for(false, false, 0) == AdditionPlan::Pass,
{
}

/// The views of candidates, texts and names show them as they are, each in turn, and the texts in
/// lower case are those of the devices.
pub proof fn law_candidates_show_their_fields(
    candidates: Seq<DiscoveryAddCandidate>,
    texts: Seq<LoweredTexts>,
    names: Seq<String>,
    found: Seq<DiscoveredDeviceView>,
)
    ensures
        candidate_views(candidates).len() == candidates.len(),
        forall|i: int|
            0 <= i < candidates.len() ==> {
                let c = #[trigger] candidate_views(candidates)[i];
                &&& c.name == candidates[i].name@
                &&& c.ip == candidates[i].ip
                &&& c.model == candidates[i].model
                &&& c.label == candidates[i].label@
            },
        lowered_views(texts).len() == texts.len(),
        forall|i: int|
            0 <= i < texts.len() ==> (#[trigger] lowered_views(texts)[i]).nickname
                == texts[i].nickname@ && lowered_views(texts)[i].model == texts[i].model@,
        name_texts(names).len() == names.len(),
        forall|i: int| 0 <= i < names.len() ==> #[trigger] name_texts(names)[i] == names[i]@,
        lowered_texts(found).len() == found.len(),
        ascii_lowered_texts(found).len() == found.len(),
        forall|i: int|
            0 <= i < found.len() ==> (#[trigger] lowered_texts(found)[i]).nickname
                == naming::lowered(found[i].nickname) && lowered_texts(found)[i].model
                == naming::lowered(found[i].model),
        forall|i: int|
            0 <= i < found.len() ==> (#[trigger] ascii_lowered_texts(found)[i]).nickname
                == text::ascii_lowered(found[i].nickname) && ascii_lowered_texts(found)[i].model
                == text::ascii_lowered(found[i].model),
{
}

} // verus!
