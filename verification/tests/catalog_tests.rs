use waymenu::app_context::AppContext;
use waymenu::cli::{Cli, Commands, SettingsOverride};
use waymenu::list_item::{app_entries, menu_list, AppDesc, CatalogError, IconRef, Launch,
    ListItem};
use waymenu::rank::app_list;

fn item(label: &str, icon: Option<&str>, exec_argv: Option<&[&str]>) -> ListItem {
    ListItem {
        label: label.as_bytes().to_vec(),
        icon: icon.map(|p| p.as_bytes().to_vec()),
        exec_argv: exec_argv.map(|a| a.iter().map(|s| s.as_bytes().to_vec()).collect()),
    }
}

fn desc(id: &str, name: &str, executable: &str, should_show: bool) -> AppDesc {
    AppDesc {
        id: id.as_bytes().to_vec(),
        name: name.as_bytes().to_vec(),
        executable: executable.as_bytes().to_vec(),
        icon: None,
        should_show,
    }
}

fn launcher_cli() -> Cli {
    Cli {
        style: None,
        config: None,
        verbose: false,
        overrides: SettingsOverride {
            width: None,
            height: None,
            orientation: None,
            hide_search: false,
            history_size: None,
        },
        command: Commands::Launcher,
    }
}

#[test]
fn menu_item_without_exec_echoes_its_label() {
    let entries = menu_list(&vec![item("Lock", None, None)]).unwrap();
    assert_eq!(entries.len(), 1);
    assert_eq!(entries[0].id, b"Lock".to_vec());
    assert_eq!(entries[0].label, b"Lock".to_vec());
    assert_eq!(entries[0].match_text, b"Lock".to_vec());
    assert!(matches!(entries[0].action, Launch::Echo));
    assert!(entries[0].icon.is_none());
}

#[test]
fn menu_item_with_exec_spawns_it() {
    let entries = menu_list(&vec![item("Reboot", None, Some(&["systemctl", "reboot"]))])
        .unwrap();
    assert_eq!(entries.len(), 1);
    match &entries[0].action {
        Launch::Exec(argv) => {
            assert_eq!(argv.len(), 2);
            assert_eq!(argv[0], b"systemctl".to_vec());
            assert_eq!(argv[1], b"reboot".to_vec());
        },
        _ => panic!("expected a command action"),
    }
}

#[test]
fn menu_item_icon_is_file_backed() {
    let entries = menu_list(&vec![item("Lock", Some("/icons/lock.png"), None)]).unwrap();
    match &entries[0].icon {
        Some(IconRef::FileBackedIcon(p)) => assert_eq!(p, &b"/icons/lock.png".to_vec()),
        _ => panic!("expected a file-backed icon"),
    }
}

#[test]
fn empty_exec_fails_catalog_construction() {
    let r = menu_list(&vec![item("Lock", None, Some(&[]))]);
    assert_eq!(r.err(), Some(CatalogError::EmptyExec));
}

#[test]
fn one_bad_definition_fails_the_whole_menu() {
    let r = menu_list(&vec![
        item("Good", None, Some(&["true"])),
        item("Bad", None, Some(&[])),
    ]);
    assert_eq!(r.err(), Some(CatalogError::EmptyExec));
}

#[test]
fn duplicate_labels_are_legal_and_kept() {
    let entries = menu_list(&vec![item("Same", None, None), item("Same", None, None)])
        .unwrap();
    assert_eq!(entries.len(), 2);
}

#[test]
fn hidden_applications_are_dropped() {
    let descs = vec![
        desc("a.desktop", "Shown", "shown-bin", true),
        desc("b.desktop", "Hidden", "hidden-bin", false),
    ];
    let entries = app_entries(&descs);
    assert_eq!(entries.len(), 1);
    assert_eq!(entries[0].label, b"Shown".to_vec());
    assert_eq!(entries[0].match_text, b"shown-bin".to_vec());
    assert!(matches!(entries[0].action, Launch::DesktopApp));
}

#[test]
fn app_list_orders_by_history_then_label() {
    let descs = vec![
        desc("zed.desktop", "Zed", "zed", true),
        desc("mail.desktop", "Mail", "mail", true),
        desc("calc.desktop", "Calculator", "calc", true),
    ];
    let history = vec![b"zed.desktop".to_vec()];
    let entries = app_list(&descs, &history);
    let labels: Vec<Vec<u8>> = entries.iter().map(|e| e.label.clone()).collect();
    assert_eq!(labels, vec![b"Zed".to_vec(), b"Calculator".to_vec(), b"Mail".to_vec()]);
}

#[test]
fn launcher_context_reads_history_under_its_own_limit() {
    let descs = vec![
        desc("a.desktop", "Alpha", "alpha", true),
        desc("b.desktop", "Beta", "beta", true),
    ];
    let mut cli = launcher_cli();
    cli.overrides.history_size = Some(1);
    let history_content = b"b.desktop\na.desktop".to_vec();
    let ctx = AppContext::with_app_list(cli, None, &descs, &history_content);
    assert_eq!(ctx.config.history_size, 1);
    // Only the first history line is within the bound, so only Beta is
    // recent.
    let labels: Vec<Vec<u8>> = ctx.list_items.iter().map(|e| e.label.clone()).collect();
    assert_eq!(labels, vec![b"Beta".to_vec(), b"Alpha".to_vec()]);
    assert_eq!(ctx.get_window_size(), (ctx.config.width, ctx.config.height));
}

#[test]
fn menu_context_carries_the_definitions_in_order() {
    let cli = launcher_cli();
    let items = vec![item("Two", None, None), item("One", None, None)];
    let ctx = AppContext::with_menu_list(cli, None, &items).unwrap();
    let labels: Vec<Vec<u8>> = ctx.list_items.iter().map(|e| e.label.clone()).collect();
    // Menu catalogs keep definition order; no sorting, no history.
    assert_eq!(labels, vec![b"Two".to_vec(), b"One".to_vec()]);
}

#[test]
fn menu_context_fails_on_empty_exec() {
    let cli = launcher_cli();
    let items = vec![item("Lock", None, Some(&[]))];
    assert!(AppContext::with_menu_list(cli, None, &items).is_err());
}
