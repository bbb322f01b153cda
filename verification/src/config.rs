//! Effective run settings: compiled-in defaults, overridden field by field
//! first by the configuration file and then by explicit command-line
//! overrides. The file is read and parsed by the caller; a missing or
//! unparsable file arrives here as `None` and falls back to the defaults.

use vstd::prelude::*;

verus! {

/// What stripping comments from configuration text yields: the text with
/// every comment blanked, or nothing when the text cannot be scanned. A
/// function of the bytes alone.
pub uninterp spec fn stripped_of(text: Seq<u8>) -> Option<Seq<u8>>;

/// Relies on json_comments::StripComments: C-style line and block comments
/// and shell-style line comments outside strings are replaced with spaces,
/// byte for byte; text left unterminated inside a string or block comment,
/// or a stray comment opener, is refused.
#[verifier::external_body]
fn strip_comments_call(text: &Vec<u8>) -> (r: Option<Vec<u8>>)
    ensures
        r matches Some(s) ==> (Some(s@) == stripped_of(text@) && s@.len() == text@.len()),
        r is None ==> stripped_of(text@) is None,
{
    let mut out: Vec<u8> = Vec::with_capacity(text.len());
    let mut reader = json_comments::StripComments::new(text.as_slice());
    match std::io::Read::read_to_end(&mut reader, &mut out) {
        Ok(_) => Some(out),
        Err(_) => None,
    }
}

/// Prepares configuration text for a strict JSON parser: comments are
/// blanked to spaces, leaving every other byte in place. `None` when the
/// text cannot be scanned (an unterminated string or block comment, or a
/// stray comment opener); the caller then falls back to the defaults, as on
/// any other parse failure.
pub fn strip_config_comments(text: &Vec<u8>) -> (r: Option<Vec<u8>>)
    ensures
        r matches Some(s) ==> (Some(s@) == stripped_of(text@) && s@.len() == text@.len()),
        r is None ==> stripped_of(text@) is None,
{
    strip_comments_call(text)
}

/// Direction in which the menu lays out its entries.
#[derive(Clone, Copy, PartialEq, Eq, Structural, Debug)]
pub enum Orientation {
    Horizontal,
    Vertical,
}

impl Orientation {
    /// The lower-case name of the orientation, as the configuration file
    /// and the command line spell it.
    pub fn as_str(&self) -> (r: &'static str)
        ensures
            *self == Orientation::Horizontal ==> r@ == "horizontal"@,
            *self == Orientation::Vertical ==> r@ == "vertical"@,
    {
        match self {
            Orientation::Horizontal => "horizontal",
            Orientation::Vertical => "vertical",
        }
    }
}

/// The effective run configuration, immutable once resolved.
#[derive(Clone, Copy, PartialEq, Eq, Structural, Debug)]
pub struct Settings {
    /// Window width in pixels; positive.
    pub width: i32,
    /// Window height in pixels; positive.
    pub height: i32,
    /// Layout direction of the menu.
    pub orientation: Orientation,
    /// Whether the search field is hidden.
    pub hide_search: bool,
    /// Bound on the launch history; zero disables history entirely.
    pub history_size: usize,
}

/// The compiled-in defaults.
pub open spec fn spec_default_settings() -> Settings {
    Settings {
        width: 600,
        height: 400,
        orientation: Orientation::Vertical,
        hide_search: false,
        history_size: 10,
    }
}

/// The configuration file's contribution: each field that the file sets,
/// absent fields left `None`.
#[derive(Clone, Copy, PartialEq, Eq, Structural, Debug)]
pub struct PartialSettings {
    pub width: Option<i32>,
    pub height: Option<i32>,
    pub orientation: Option<Orientation>,
    pub hide_search: Option<bool>,
    pub history_size: Option<usize>,
}

/// The defaults with a file's fields laid over them, field by field.
pub open spec fn spec_merge(p: PartialSettings) -> Settings {
    Settings {
        width: match p.width {
            Some(w) => w,
            None => spec_default_settings().width,
        },
        height: match p.height {
            Some(h) => h,
            None => spec_default_settings().height,
        },
        orientation: match p.orientation {
            Some(o) => o,
            None => spec_default_settings().orientation,
        },
        hide_search: match p.hide_search {
            Some(b) => b,
            None => spec_default_settings().hide_search,
        },
        history_size: match p.history_size {
            Some(n) => n,
            None => spec_default_settings().history_size,
        },
    }
}

impl Settings {
    /// The compiled-in defaults.
    pub fn load_defaults() -> (r: Settings)
        ensures
            r == spec_default_settings(),
    {
        Settings {
            width: 600,
            height: 400,
            orientation: Orientation::Vertical,
            hide_search: false,
            history_size: 10,
        }
    }

    /// The base settings for a run: the defaults, with the fields of the
    /// parsed configuration file laid over them when one was read. This
    /// never fails: a missing or unparsable file arrives as `None` and
    /// yields the defaults.
    pub fn load(parsed: Option<&PartialSettings>) -> (r: Settings)
        ensures
            parsed matches Some(p) ==> r == spec_merge(*p),
            parsed is None ==> r == spec_default_settings(),
    {
        match parsed {
            None => Self::load_defaults(),
            Some(p) => {
                let mut s = Self::load_defaults();
                if let Some(w) = p.width {
                    s.width = w;
                }
                if let Some(h) = p.height {
                    s.height = h;
                }
                if let Some(o) = p.orientation {
                    s.orientation = o;
                }
                if let Some(b) = p.hide_search {
                    s.hide_search = b;
                }
                if let Some(n) = p.history_size {
                    s.history_size = n;
                }
                s
            },
        }
    }

    /// Default window width.
    pub fn default_width() -> (r: i32)
        ensures
            r == spec_default_settings().width,
    {
        Self::load_defaults().width
    }

    /// Default window height.
    pub fn default_height() -> (r: i32)
        ensures
            r == spec_default_settings().height,
    {
        Self::load_defaults().height
    }

    /// Default orientation.
    pub fn default_orientation() -> (r: Orientation)
        ensures
            r == spec_default_settings().orientation,
    {
        Self::load_defaults().orientation
    }

    /// Whether the search field is hidden by default.
    pub fn default_hide_search() -> (r: bool)
        ensures
            r == spec_default_settings().hide_search,
    {
        Self::load_defaults().hide_search
    }

    /// Default bound on the launch history.
    pub fn default_history_size() -> (r: usize)
        ensures
            r == spec_default_settings().history_size,
    {
        Self::load_defaults().history_size
    }
}

} // verus!
