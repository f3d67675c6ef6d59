//! The user-preferences record and the store-level operations on it:
//! defaulting when no state file exists, and turning file contents into
//! records and back.

use vstd::prelude::*;

use crate::json;

verus! {

/// The one persisted record: a channel name and two window flags.
#[derive(PartialEq, Eq, Debug)]
pub struct Preferences {
    pub channel: String,
    pub always_on_top: bool,
    pub transparent: bool,
}

/// Mathematical image of a [`Preferences`] record.
#[verifier::ext_equal]
pub ghost struct PrefsView {
    pub channel: Seq<char>,
    pub always_on_top: bool,
    pub transparent: bool,
}

impl View for Preferences {
    type V = PrefsView;

    open spec fn view(&self) -> PrefsView {
        PrefsView {
            channel: self.channel@,
            always_on_top: self.always_on_top,
            transparent: self.transparent,
        }
    }
}

/// The record used when no state file exists yet.
pub open spec fn default_prefs() -> PrefsView {
    PrefsView { channel: "poly_fr"@, always_on_top: false, transparent: false }
}

impl Default for Preferences {
    /// The default record: channel `poly_fr`, both flags off.
    fn default() -> (r: Self)
        ensures
            r@ == default_prefs(),
    {
        Preferences { channel: "poly_fr".to_owned(), always_on_top: false, transparent: false }
    }
}

/// What loading yields from the state file's content: the defaults when no
/// file exists, else whatever record the text denotes.
pub open spec fn loaded_prefs(content: Option<Seq<char>>) -> Option<PrefsView> {
    match content {
        Option::Some(text) => json::parse_prefs(text),
        Option::None => Some(default_prefs()),
    }
}

/// Loads a record from the state file's content, `None` standing for a file
/// that does not exist. A missing file yields the defaults; a malformed text
/// yields an error, never a silent fallback.
pub fn load_from_content(content: Option<&str>) -> (r: Result<Preferences, json::ParseError>)
    ensures
        match content {
            Option::Some(text) => (match r {
                Result::Ok(p) => json::parse_prefs(text@) == Some(p@),
                Result::Err(e) => json::parse_prefs(text@) is None && e
                    == json::ParseError::Malformed,
            }),
            Option::None => (r matches Result::Ok(p) && p@ == default_prefs()),
        },
{
    match content {
        Option::Some(text) => json::from_json(text),
        Option::None => Ok(Preferences::default()),
    }
}

/// The exact text that saving the given values writes: the file is replaced
/// whole, so it holds these values and nothing of any earlier save.
pub fn save_content(channel: String, always_on_top: bool, transparent: bool) -> (r: String)
    ensures
        r@ == json::canonical_json(
            (PrefsView { channel: channel@, always_on_top: always_on_top, transparent: transparent }),
        ),
{
    let p = Preferences { channel, always_on_top, transparent };
    json::to_json(&p)
}

/// The name of the state file inside the app's config directory.
pub fn state_file_name() -> (r: &'static str)
    ensures
        r@ == "app_state.json"@,
{
    "app_state.json"
}

/// Loading the content that saving wrote returns exactly the saved record.
pub proof fn lemma_save_load_roundtrip(p: PrefsView)
    ensures
        loaded_prefs(Some(json::canonical_json(p))) == Some(p),
{
    json::lemma_canonical_roundtrip(p);
}

impl Clone for Preferences {
    fn clone(&self) -> (r: Self)
        ensures
            r@ == self@,
    {
        Preferences {
            channel: self.channel.clone(),
            always_on_top: self.always_on_top,
            transparent: self.transparent,
        }
    }
}

} // verus!
