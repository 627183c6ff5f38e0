//! Adding a preset: refusing an existing name, and the new preset's contents.
use vstd::prelude::*;
use crate::error::ClaudioError;
use crate::json::{Json, JsonValue, json_view, json_wf};
use crate::preset::store::LocatedPreset;
use crate::preset::types::{Preset, preset_wf};
use crate::scope::Scope;

verus! {

/// The preset a new file starts with: the name, a placeholder description, and empty env,
/// args and settings.
pub fn default_preset(name: &str) -> (r: Preset)
    ensures
        r.name@ == name@,
        r.description matches Some(d) && d@ == "Description of this preset"@,
        r.extends is None,
        r.prompt is None,
        r.env matches Some(e) && e@.len() == 0,
        r.args matches Some(a) && a@.len() == 0,
        r.settings matches Some(s) && json_view(s) == Json::Object(Map::empty()),
        preset_wf(r),
{
    let settings = JsonValue::Object(Vec::new());
    assert(json_view(settings) == Json::Object(Map::empty()));
    assert(json_wf(settings));
    Preset {
        name: name.to_owned(),
        description: Some("Description of this preset".to_owned()),
        extends: None,
        prompt: None,
        env: Some(Vec::new()),
        args: Some(Vec::new()),
        settings: Some(settings),
    }
}

/// A new preset may be added only under a name that no preset of the scope has yet;
/// `found` is the lookup of the name.
pub fn check_new_preset_name(
    preset_name: &str,
    scope: Scope,
    found: Result<Option<LocatedPreset>, ClaudioError>,
) -> (r: Result<(), ClaudioError>)
    ensures
        match found {
            Err(e) => r == Err::<(), ClaudioError>(e),
            Ok(None) => r is Ok,
            Ok(Some(_)) => r matches Err(ClaudioError::PresetExists { name, auto }) && name@ == preset_name@
                && auto == (scope == Scope::Auto),
        },
{
    match found {
        Err(e) => Err(e),
        Ok(None) => Ok(()),
        Ok(Some(_)) => Err(ClaudioError::PresetExists { name: preset_name.to_owned(), auto: scope == Scope::Auto }),
    }
}

/// The preset a new file starts with, extending `extends` when one is given. `base` is the
/// lookup of that base preset (in every scope); when it failed, that is the error and
/// nothing is created.
pub fn new_preset(
    name: &str,
    extends: Option<String>,
    base: Option<Result<LocatedPreset, ClaudioError>>,
) -> (r: Result<Preset, ClaudioError>)
    ensures
        match base {
            Some(Err(e)) => r == Err::<Preset, ClaudioError>(e),
            _ => r matches Ok(p) && {
                &&& p.name@ == name@
                &&& p.description matches Some(d) && d@ == "Description of this preset"@
                &&& p.extends == extends
                &&& p.prompt is None
                &&& p.env matches Some(e) && e@.len() == 0
                &&& p.args matches Some(a) && a@.len() == 0
                &&& p.settings matches Some(s) && json_view(s) == Json::Object(Map::empty())
                &&& preset_wf(p)
            },
        },
{
    match base {
        Some(Err(e)) => Err(e),
        _ => {
            let mut p = default_preset(name);
            p.extends = extends;
            Ok(p)
        },
    }
}

} // verus!
