//! The command-line surface, reduced to its meaning: which mode to run,
//! where the style and configuration files are, and the per-field settings
//! overrides. Argument parsing itself is the caller's concern; it hands in
//! this structure with plain values.

use vstd::prelude::*;

use crate::config::{Orientation, PartialSettings, Settings, spec_default_settings, spec_merge};
use crate::env::{
    config_jsonc_bytes, get_config_path, get_css_path, spec_home_dir, spec_path_join,
    style_css_bytes, EnvVars,
};

verus! {

/// Per-field command-line overrides of the settings. `None` leaves the
/// merged value untouched; the hide-search flag only ever turns hiding on.
pub struct SettingsOverride {
    pub width: Option<i32>,
    pub height: Option<i32>,
    pub orientation: Option<Orientation>,
    pub hide_search: bool,
    pub history_size: Option<usize>,
}

/// The settings with the overrides applied, field by field.
pub open spec fn spec_apply(o: SettingsOverride, s: Settings) -> Settings {
    Settings {
        width: match o.width {
            Some(w) => w,
            None => s.width,
        },
        height: match o.height {
            Some(h) => h,
            None => s.height,
        },
        orientation: match o.orientation {
            Some(v) => v,
            None => s.orientation,
        },
        hide_search: if o.hide_search {
            true
        } else {
            s.hide_search
        },
        history_size: match o.history_size {
            Some(n) => n,
            None => s.history_size,
        },
    }
}

/// If `a` carries a value, assign it to `b`.
fn assign_some<T>(a: Option<T>, b: &mut T)
    ensures
        a matches Some(v) ==> *final(b) == v,
        a is None ==> *final(b) == *old(b),
{
    if let Some(val) = a {
        *b = val;
    }
}

impl SettingsOverride {
    /// Applies every override that is present, and only those.
    pub fn apply(&self, settings: &mut Settings)
        ensures
            *final(settings) == spec_apply(*self, *old(settings)),
    {
        assign_some(self.width, &mut settings.width);
        assign_some(self.height, &mut settings.height);
        assign_some(self.orientation, &mut settings.orientation);
        if self.hide_search {
            settings.hide_search = true;
        }
        assign_some(self.history_size, &mut settings.history_size);
    }
}

/// Which mode the run is in: the application launcher, a custom menu read
/// from a file or standard input, or writing the default configuration
/// files.
pub enum Commands {
    /// Show the launcher for installed applications.
    Launcher,
    /// Show a custom menu; the definitions come from the named file, or
    /// from standard input when no file is given.
    Menu { file: Option<Vec<u8>> },
    /// Write default configuration and style files, never overwriting, and
    /// exit.
    InitConfig,
}

/// The parsed command line.
pub struct Cli {
    /// Explicit stylesheet path, if given.
    pub style: Option<Vec<u8>>,
    /// Explicit configuration file path, if given.
    pub config: Option<Vec<u8>>,
    /// Verbose logging; read by the caller's logging setup only.
    pub verbose: bool,
    /// Per-field settings overrides.
    pub overrides: SettingsOverride,
    /// The mode to run.
    pub command: Commands,
}

impl Cli {
    /// The stylesheet path: the explicit option, or `style.css` in the
    /// configuration directory.
    pub fn get_style_path(&self, env: &EnvVars) -> (r: Vec<u8>)
        ensures
            self.style matches Some(p) ==> r@ == p@,
            self.style is None ==> r@ == spec_path_join(spec_home_dir(*env), style_css_bytes()),
    {
        match &self.style {
            Some(style_path) => crate::text::clone_bytes(style_path),
            None => get_css_path(env),
        }
    }

    /// The configuration file path: the explicit option, or `config.jsonc`
    /// in the configuration directory.
    pub fn get_config_path(&self, env: &EnvVars) -> (r: Vec<u8>)
        ensures
            self.config matches Some(p) ==> r@ == p@,
            self.config is None ==> r@ == spec_path_join(
                spec_home_dir(*env),
                config_jsonc_bytes(),
            ),
    {
        match &self.config {
            Some(config_path) => crate::text::clone_bytes(config_path),
            None => get_config_path(env),
        }
    }

    /// The effective settings of the run: the defaults, the parsed
    /// configuration file if one was read, then the command-line overrides,
    /// in that order. Total: a missing or unparsable file arrives as `None`
    /// and contributes nothing.
    pub fn load_settings(&self, parsed: Option<&PartialSettings>) -> (r: Settings)
        ensures
            parsed matches Some(p) ==> r == spec_apply(self.overrides, spec_merge(*p)),
            parsed is None ==> r == spec_apply(self.overrides, spec_default_settings()),
    {
        let mut settings = Settings::load(parsed);
        self.overrides.apply(&mut settings);
        settings
    }
}

} // verus!
