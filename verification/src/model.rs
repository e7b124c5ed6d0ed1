//! The plug models that can be controlled.
use vstd::prelude::*;

use crate::error;
use crate::error::{Error, ErrorView};
use crate::text;

verus! {

/// A plug model that can be controlled.
#[derive(Debug, Clone, Copy, PartialEq, Eq, Structural)]
pub enum DeviceModel {
    P100,
    P105,
    P110,
    P115,
}

impl View for DeviceModel {
    type V = DeviceModel;

    open spec fn view(&self) -> DeviceModel {
        *self
    }
}

/// How a model is written.
pub open spec fn model_text(m: DeviceModel) -> Seq<char> {
    match m {
        DeviceModel::P100 => "p100"@,
        DeviceModel::P105 => "p105"@,
        DeviceModel::P110 => "p110"@,
        DeviceModel::P115 => "p115"@,
    }
}

/// A model's text as it is compared: without white space around it and in lower case.
pub open spec fn model_key(s: Seq<char>) -> Seq<char> {
    text::ascii_lowered(text::trimmed(s))
}

/// The model that `s` denotes: the text of a model, or that of its Matter variant `p110m`, in any
/// case and with any white space around it.
pub open spec fn model_value(s: Seq<char>) -> Option<DeviceModel> {
    let key = model_key(s);
    if key == "p100"@ {
        Some(DeviceModel::P100)
    } else if key == "p105"@ {
        Some(DeviceModel::P105)
    } else if key == "p110"@ || key == "p110m"@ {
        Some(DeviceModel::P110)
    } else if key == "p115"@ {
        Some(DeviceModel::P115)
    } else {
        None
    }
}

/// What reading a model comes to.
pub open spec fn model_outcome(s: Seq<char>) -> Result<DeviceModel, ErrorView> {
    match model_value(s) {
        Some(m) => Ok(m),
        None => Err(ErrorView::UnsupportedModel { model: model_key(s) }),
    }
}

/// Whether the plugs of a model measure energy.
pub open spec fn measures_energy(m: DeviceModel) -> bool {
    m == DeviceModel::P110 || m == DeviceModel::P115
}

impl DeviceModel {
    /// How the model is written.
    pub fn to_string(&self) -> (r: String)
        ensures
            r@ == model_text(*self),
    {
        match self {
            DeviceModel::P100 => "p100".to_owned(),
            DeviceModel::P105 => "p105".to_owned(),
            DeviceModel::P110 => "p110".to_owned(),
            DeviceModel::P115 => "p115".to_owned(),
        }
    }

    /// Whether the plugs of the model measure energy.
    pub fn has_energy_monitoring(&self) -> (r: bool)
        ensures
            r == measures_energy(*self),
    {
        match self {
            DeviceModel::P110 | DeviceModel::P115 => true,
            DeviceModel::P100 | DeviceModel::P105 => false,
        }
    }
}

impl std::str::FromStr for DeviceModel {
    type Err = Error;

    fn from_str(value: &str) -> (r: Result<Self, Self::Err>)
        ensures
            error::outcome(r) == model_outcome(value@),
    {
        let key = value.trim().to_ascii_lowercase();
        if text::same_text(&key, "p100") {
            Ok(DeviceModel::P100)
        } else if text::same_text(&key, "p105") {
            Ok(DeviceModel::P105)
        } else if text::same_text(&key, "p110") || text::same_text(&key, "p110m") {
            Ok(DeviceModel::P110)
        } else if text::same_text(&key, "p115") {
            Ok(DeviceModel::P115)
        } else {
            Err(Error::UnsupportedModel { model: key })
        }
    }
}

/// The model that the text denotes, where it is one that can be controlled.
pub fn supported_device_model(model: &str) -> (r: Option<DeviceModel>)
    ensures
        r == model_value(model@),
{
    match <DeviceModel as std::str::FromStr>::from_str(model) {
        Ok(m) => Some(m),
        Err(_) => None,
    }
}

// Laws

/// What is written of a model reads back as the model.
pub proof fn law_model_round_trip(m: DeviceModel)
    ensures
        model_value(model_text(m)) == Some(m),
{
    reveal_strlit("p100");
    reveal_strlit("p105");
    reveal_strlit("p110");
    reveal_strlit("p110m");
    reveal_strlit("p115");
    let t = model_text(m);
    text::lemma_trimmed_fixed(t);
    assert(text::ascii_lowered(t) =~= t);
    assert(t[2] == '0' || t[2] == '1');
    assert(t[3] == '0' || t[3] == '5');
}

/// A model reads the same with capital and with small letters.
pub proof fn law_model_in_any_case(s: Seq<char>)
    ensures
        model_value(text::ascii_lowered(s)) == model_value(s),
{
    text::lemma_trimmed_lowered(s);
    let t = text::trimmed(s);
    assert(text::ascii_lowered(text::ascii_lowered(t)) =~= text::ascii_lowered(t));
}

/// A text stands for a model exactly where it reads, without white space around it and in lower
/// case, `p100`, `p105`, `p110` or `p115`, or `p110m` for the P110.
pub proof fn law_model_spellings(s: Seq<char>)
    ensures
        ({
            let key = text::ascii_lowered(text::trimmed(s));
            &&& model_value(s) == Some(DeviceModel::P100) <==> key == "p100"@
            &&& model_value(s) == Some(DeviceModel::P105) <==> key == "p105"@
            &&& model_value(s) == Some(DeviceModel::P110) <==> key == "p110"@ || key == "p110m"@
            &&& model_value(s) == Some(DeviceModel::P115) <==> key == "p115"@
        }),
{
    reveal_strlit("p100");
    reveal_strlit("p105");
    reveal_strlit("p110");
    reveal_strlit("p110m");
    reveal_strlit("p115");
    assert("p100"@[2] == '0' && "p105"@[2] == '0' && "p110"@[2] == '1' && "p115"@[2] == '1'
        && "p110m"@[2] == '1');
    assert("p100"@[3] == '0' && "p105"@[3] == '5' && "p110"@[3] == '0' && "p115"@[3] == '5'
        && "p110m"@[3] == '0');
}

/// Reading a text succeeds exactly where it stands for a model, and gives that model; any other
/// text is refused by what it reads as.
pub proof fn law_model_is_read_or_refused(s: Seq<char>)
    ensures
        model_value(s) matches Some(m) ==> model_outcome(s) == Ok::<_, ErrorView>(m),
        model_value(s) is None ==> model_outcome(s) == Err::<DeviceModel, _>(
            ErrorView::UnsupportedModel { model: text::ascii_lowered(text::trimmed(s)) },
        ),
{
}

/// White space around a model is of no account.
pub proof fn law_model_within_white_space(s: Seq<char>)
    ensures
        model_value(text::trimmed(s)) == model_value(s),
{
    text::lemma_trimmed_ends(s);
    text::lemma_trimmed_fixed(text::trimmed(s));
}

/// How each model is written.
pub proof fn law_model_texts()
    ensures
        model_text(DeviceModel::P100) == "p100"@,
        model_text(DeviceModel::P105) == "p105"@,
        model_text(DeviceModel::P110) == "p110"@,
        model_text(DeviceModel::P115) == "p115"@,
{
}

/// The P110 and the P115 measure energy, the P100 and the P105 do not.
pub proof fn law_measuring_models(m: DeviceModel)
    ensures
        m is P110 || m is P115 ==> measures_energy(m),
        m is P100 || m is P105 ==> !measures_energy(m),
{
}

} // verus!
