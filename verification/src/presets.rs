//! The preset catalogue exposed to the hosting application: stable
//! identifiers and display names. The settings a preset carries are built by
//! the host, which owns their fractional parameter values.

use vstd::prelude::*;
use vstd::string::StringExecFns;

verus! {

/// Identifier of the preset selected when none has been chosen yet.
pub const DEFAULT_PRESET_ID: &'static str = "arctic";

/// Metadata about one preset: its stable identifier and its display name.
#[derive(Clone, Debug)]
pub struct PresetInfo {
    pub id: String,
    pub name: String,
}

/// The catalogue of available presets, in display order.
pub fn get_preset_list() -> (r: Vec<PresetInfo>)
    ensures
        r@.len() == 5,
        r@[0].id@ == "arctic"@ && r@[0].name@ == "Arctic"@,
        r@[1].id@ == "chalk"@ && r@[1].name@ == "Moon"@,
        r@[2].id@ == "desert"@ && r@[2].name@ == "Desert"@,
        r@[3].id@ == "lava"@ && r@[3].name@ == "Lava"@,
        r@[4].id@ == "natural"@ && r@[4].name@ == "Islands"@,
{
    let mut r: Vec<PresetInfo> = Vec::new();
    r.push(PresetInfo { id: String::from_str("arctic"), name: String::from_str("Arctic") });
    r.push(PresetInfo { id: String::from_str("chalk"), name: String::from_str("Moon") });
    r.push(PresetInfo { id: String::from_str("desert"), name: String::from_str("Desert") });
    r.push(PresetInfo { id: String::from_str("lava"), name: String::from_str("Lava") });
    r.push(PresetInfo { id: String::from_str("natural"), name: String::from_str("Islands") });
    r
}

/// The identifier of the default preset.
pub fn get_default_preset_id() -> (r: &'static str)
    ensures
        r@ == "arctic"@,
{
    DEFAULT_PRESET_ID
}

} // verus!
