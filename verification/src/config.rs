//! User preferences and where they are stored.
use vstd::prelude::*;
use crate::error::ProjectError;
use crate::schema::CanvasRatio;
use crate::text::{join_path, path_join};

verus! {

/// Colour scheme preference.
#[derive(Debug, Clone, Copy, PartialEq, Eq, Structural)]
pub enum ThemePreference {
    System,
    Light,
    Dark,
}

impl Default for ThemePreference {
    fn default() -> (r: ThemePreference)
        ensures
            r == ThemePreference::Dark,
    {
        ThemePreference::Dark
    }
}

impl ThemePreference {
    /// Position of the preference in the theme choice list ("System
    /// Default", "Light Theme", "Dark Theme").
    pub fn choice_index(self) -> (r: u32)
        ensures
            r == (match self {
                ThemePreference::System => 0u32,
                ThemePreference::Light => 1u32,
                ThemePreference::Dark => 2u32,
            }),
    {
        match self {
            ThemePreference::System => 0,
            ThemePreference::Light => 1,
            ThemePreference::Dark => 2,
        }
    }
}

/// Persistent user preferences.
#[derive(Debug, Clone, PartialEq)]
pub struct AppConfig {
    pub theme: ThemePreference,
    pub default_canvas: CanvasRatio,
    pub hardware_accel_enabled: bool,
    pub autosave_interval_seconds: u32,
    pub custom_cache_dir: Option<String>,
}

impl Default for AppConfig {
    fn default() -> (r: AppConfig)
        ensures
            r.theme == ThemePreference::Dark,
            r.default_canvas == CanvasRatio::Landscape16x9,
            r.hardware_accel_enabled,
            r.autosave_interval_seconds == 60,
            r.custom_cache_dir.is_none(),
    {
        AppConfig {
            theme: ThemePreference::Dark,
            default_canvas: CanvasRatio::Landscape16x9,
            hardware_accel_enabled: true,
            autosave_interval_seconds: 60,
            custom_cache_dir: None,
        }
    }
}

impl AppConfig {
    /// Configuration file inside the configuration directory `dir`
    /// (`None` when no directory is known).
    pub fn config_file_in(dir: Option<String>) -> (r: Result<String, ProjectError>)
        ensures
            dir is None ==> r == Err::<String, ProjectError>(ProjectError::ConfigDirectoryUnavailable),
            dir matches Some(d) ==> (r matches Ok(p) && p@ == path_join(d@, "config.json"@)),
    {
        match dir {
            None => Err(ProjectError::ConfigDirectoryUnavailable),
            Some(d) => Ok(join_path(d.as_str(), "config.json")),
        }
    }

    /// Default configuration file path, `$XDG_CONFIG_HOME/FluxCut/config.json`:
    /// the base configuration directory joined with "FluxCut" (see
    /// `dirs::app_identity`) and then "config.json";
    /// `ConfigDirectoryUnavailable` when the platform knows no base
    /// configuration directory.
    pub fn config_file_path() -> (r: Result<String, ProjectError>)
        ensures
            r is Err ==> r == Err::<String, ProjectError>(ProjectError::ConfigDirectoryUnavailable),
            r matches Ok(p) ==> exists|b: Seq<char>|
                #[trigger] path_join(path_join(b, "FluxCut"@), "config.json"@) == p@,
    {
        let dir = crate::dirs::user_config_dir();
        let ghost gd = dir;
        let r = Self::config_file_in(dir);
        proof {
            if let Some(d) = gd {
                let b = choose|b: Seq<char>| #[trigger] path_join(b, "FluxCut"@) == d@;
                assert(path_join(path_join(b, "FluxCut"@), "config.json"@) == r->Ok_0@);
            }
        }
        r
    }
}

} // verus!
