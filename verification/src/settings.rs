use vstd::prelude::*;

verus! {

use crate::theme::Theme;

/// The editor's configuration once loading and parsing are done: for now,
/// just the color palette.
pub struct Settings {
    pub theme: Theme,
}

/// The shape of the on-disk settings file: the name of the active theme.
pub struct SettingsSchema {
    pub active_theme: String,
}

/// The settings written out when no settings file exists yet.
pub fn default_settings_schema() -> (r: SettingsSchema)
    ensures
        r.active_theme@ == "default"@,
{
    SettingsSchema { active_theme: String::from_str("default") }
}

} // verus!
