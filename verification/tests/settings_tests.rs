use waymenu::cli::{Cli, Commands, SettingsOverride};
use waymenu::config::{Orientation, PartialSettings, Settings};
use waymenu::env::EnvVars;

fn no_overrides() -> SettingsOverride {
    SettingsOverride {
        width: None,
        height: None,
        orientation: None,
        hide_search: false,
        history_size: None,
    }
}

fn empty_partial() -> PartialSettings {
    PartialSettings {
        width: None,
        height: None,
        orientation: None,
        hide_search: None,
        history_size: None,
    }
}

fn plain_cli() -> Cli {
    Cli {
        style: None,
        config: None,
        verbose: false,
        overrides: no_overrides(),
        command: Commands::Launcher,
    }
}

fn env(home: &str, waymenu_home: Option<&str>, xdg_config: Option<&str>, xdg_state: Option<&str>)
    -> EnvVars {
    EnvVars {
        home: home.as_bytes().to_vec(),
        waymenu_home: waymenu_home.map(|s| s.as_bytes().to_vec()),
        xdg_config_home: xdg_config.map(|s| s.as_bytes().to_vec()),
        xdg_state_home: xdg_state.map(|s| s.as_bytes().to_vec()),
    }
}

#[test]
fn defaults_are_positive_and_history_enabled() {
    let d = Settings::load_defaults();
    assert!(d.width > 0);
    assert!(d.height > 0);
    assert!(d.history_size > 0);
    assert!(!d.hide_search);
    assert_eq!(Settings::default_width(), d.width);
    assert_eq!(Settings::default_height(), d.height);
    assert_eq!(Settings::default_orientation(), d.orientation);
    assert_eq!(Settings::default_hide_search(), d.hide_search);
    assert_eq!(Settings::default_history_size(), d.history_size);
}

#[test]
fn missing_config_file_yields_defaults() {
    assert_eq!(Settings::load(None), Settings::load_defaults());
}

#[test]
fn empty_config_file_yields_defaults() {
    assert_eq!(Settings::load(Some(&empty_partial())), Settings::load_defaults());
}

#[test]
fn config_file_fields_override_defaults() {
    let mut p = empty_partial();
    p.width = Some(900);
    p.orientation = Some(Orientation::Horizontal);
    let s = Settings::load(Some(&p));
    assert_eq!(s.width, 900);
    assert_eq!(s.orientation, Orientation::Horizontal);
    assert_eq!(s.height, Settings::default_height());
    assert_eq!(s.history_size, Settings::default_history_size());
}

#[test]
fn overrides_apply_field_by_field() {
    let mut s = Settings::load_defaults();
    let o = SettingsOverride {
        width: Some(1000),
        height: None,
        orientation: Some(Orientation::Horizontal),
        hide_search: false,
        history_size: Some(0),
    };
    o.apply(&mut s);
    assert_eq!(s.width, 1000);
    assert_eq!(s.height, Settings::default_height());
    assert_eq!(s.orientation, Orientation::Horizontal);
    assert_eq!(s.history_size, 0);
}

#[test]
fn hide_search_flag_only_turns_hiding_on() {
    let mut s = Settings::load_defaults();
    s.hide_search = true;
    let o = no_overrides();
    o.apply(&mut s);
    assert!(s.hide_search, "absent flag must not reveal the search field");
    let mut s2 = Settings::load_defaults();
    let mut o2 = no_overrides();
    o2.hide_search = true;
    o2.apply(&mut s2);
    assert!(s2.hide_search);
}

#[test]
fn cli_overrides_win_over_config_file() {
    let mut cli = plain_cli();
    cli.overrides.width = Some(333);
    let mut p = empty_partial();
    p.width = Some(777);
    p.height = Some(555);
    let s = cli.load_settings(Some(&p));
    assert_eq!(s.width, 333);
    assert_eq!(s.height, 555);
}

#[test]
fn load_settings_without_config_uses_defaults() {
    let cli = plain_cli();
    let s = cli.load_settings(None);
    assert_eq!(s, Settings::load_defaults());
}

#[test]
fn orientation_names() {
    assert_eq!(Orientation::Horizontal.as_str(), "horizontal");
    assert_eq!(Orientation::Vertical.as_str(), "vertical");
}

#[test]
fn style_path_prefers_explicit_option() {
    let mut cli = plain_cli();
    cli.style = Some(b"/tmp/my.css".to_vec());
    let e = env("/home/u", Some("/e/waymenu"), None, None);
    assert_eq!(cli.get_style_path(&e), b"/tmp/my.css".to_vec());
}

#[test]
fn style_path_falls_back_to_config_dir() {
    let cli = plain_cli();
    let e = env("/home/u", Some("/e/waymenu"), None, None);
    assert_eq!(cli.get_style_path(&e), b"/e/waymenu/style.css".to_vec());
}

#[test]
fn config_path_prefers_explicit_option() {
    let mut cli = plain_cli();
    cli.config = Some(b"/tmp/c.jsonc".to_vec());
    let e = env("/home/u", None, None, None);
    assert_eq!(cli.get_config_path(&e), b"/tmp/c.jsonc".to_vec());
}

#[test]
fn config_path_uses_xdg_config_home() {
    let cli = plain_cli();
    let e = env("/home/u", None, Some("/home/u/.config"), None);
    assert_eq!(cli.get_config_path(&e), b"/home/u/.config/waymenu/config.jsonc".to_vec());
}

#[test]
fn config_path_falls_back_to_home() {
    let cli = plain_cli();
    let e = env("/home/u", None, None, None);
    assert_eq!(cli.get_config_path(&e), b"/home/u/.config/waymenu/config.jsonc".to_vec());
}

#[test]
fn history_path_uses_state_dir_chain() {
    let e1 = env("/home/u", Some("/e/waymenu"), None, None);
    assert_eq!(waymenu::env::get_history_path(&e1), b"/e/waymenu/history".to_vec());
    let e2 = env("/home/u", None, None, Some("/home/u/.local/state"));
    assert_eq!(
        waymenu::env::get_history_path(&e2),
        b"/home/u/.local/state/waymenu/history".to_vec()
    );
    let e3 = env("/home/u", None, None, None);
    assert_eq!(
        waymenu::env::get_history_path(&e3),
        b"/home/u/.local/state/waymenu/history".to_vec()
    );
}

#[test]
fn css_path_from_home_fallback() {
    let e = env("/home/u", None, None, None);
    assert_eq!(waymenu::env::get_css_path(&e), b"/home/u/.config/waymenu/style.css".to_vec());
}

#[test]
fn comment_stripping_blanks_line_comments() {
    let text = b"{ // x\n}".to_vec();
    let stripped = waymenu::config::strip_config_comments(&text).unwrap();
    assert_eq!(stripped, b"{     \n}".to_vec());
}

#[test]
fn comment_stripping_blanks_block_comments() {
    let text = b"{/*a*/}".to_vec();
    let stripped = waymenu::config::strip_config_comments(&text).unwrap();
    assert_eq!(stripped, b"{     }".to_vec());
}

#[test]
fn comment_stripping_leaves_strings_alone() {
    let text = b"{\"a\": \"b // c\"}".to_vec();
    let stripped = waymenu::config::strip_config_comments(&text).unwrap();
    assert_eq!(stripped, text);
}

#[test]
fn comment_stripping_refuses_unterminated_input() {
    assert!(waymenu::config::strip_config_comments(&b"\"abc".to_vec()).is_none());
    assert!(waymenu::config::strip_config_comments(&b"{} /* x".to_vec()).is_none());
}

#[test]
fn path_join_handles_trailing_separator() {
    let e = env("/pre/", Some("/pre/"), None, None);
    assert_eq!(waymenu::env::get_history_path(&e), b"/pre/history".to_vec());
}
