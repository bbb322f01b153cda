use waymenu::list_item::{Entry, Launch};
use waymenu::rank::{base_order, filter_entries, rank};

fn entry(id: &str, label: &str) -> Entry {
    Entry {
        id: id.as_bytes().to_vec(),
        label: label.as_bytes().to_vec(),
        match_text: label.as_bytes().to_vec(),
        icon: None,
        action: Launch::DesktopApp,
    }
}

fn entry_with_match(id: &str, label: &str, match_text: &str) -> Entry {
    Entry {
        id: id.as_bytes().to_vec(),
        label: label.as_bytes().to_vec(),
        match_text: match_text.as_bytes().to_vec(),
        icon: None,
        action: Launch::DesktopApp,
    }
}

fn labels(entries: &[Entry]) -> Vec<String> {
    entries.iter().map(|e| String::from_utf8(e.label.clone()).unwrap()).collect()
}

fn history(ids: &[&str]) -> Vec<Vec<u8>> {
    ids.iter().map(|s| s.as_bytes().to_vec()).collect()
}

#[test]
fn empty_history_empty_search_sorts_alphabetically() {
    let catalog = vec![entry("b", "Beta"), entry("a", "Alpha")];
    let r = rank(&catalog, &history(&[]), &Vec::new());
    assert_eq!(labels(&r), vec!["Alpha", "Beta"]);
}

#[test]
fn recent_entry_ranks_first() {
    let catalog = vec![entry("a", "Alpha"), entry("b", "Beta")];
    let r = rank(&catalog, &history(&["b"]), &Vec::new());
    assert_eq!(labels(&r), vec!["Beta", "Alpha"]);
}

#[test]
fn search_filters_despite_recency() {
    let catalog = vec![entry("a", "Alpha"), entry("b", "Beta")];
    let r = rank(&catalog, &history(&["b"]), &b"al".to_vec());
    assert_eq!(labels(&r), vec!["Alpha"]);
}

#[test]
fn empty_search_returns_every_entry_once() {
    let catalog = vec![
        entry("c", "Gamma"),
        entry("a", "Alpha"),
        entry("b", "Beta"),
        entry("d", "Delta"),
    ];
    let r = rank(&catalog, &history(&["b", "d"]), &Vec::new());
    assert_eq!(r.len(), 4);
    let mut got = labels(&r);
    got.sort();
    assert_eq!(got, vec!["Alpha", "Beta", "Delta", "Gamma"]);
    // Recent block first, in history order; the rest alphabetically.
    assert_eq!(labels(&r), vec!["Beta", "Delta", "Alpha", "Gamma"]);
}

#[test]
fn history_order_beats_catalog_order() {
    let catalog = vec![entry("a", "Alpha"), entry("b", "Beta"), entry("c", "Gamma")];
    let r = rank(&catalog, &history(&["c", "a"]), &Vec::new());
    assert_eq!(labels(&r), vec!["Gamma", "Alpha", "Beta"]);
}

#[test]
fn filtering_preserves_base_order() {
    let catalog = vec![
        entry("mail", "Mail"),
        entry("maps", "Maps"),
        entry("calc", "Calculator"),
        entry("cam", "Camera"),
    ];
    let hist = history(&["cam"]);
    let base = base_order(&catalog, &hist);
    let filtered = filter_entries(&base, &b"ma".to_vec());
    // The survivors appear in the same relative order as in the base order.
    let base_labels = labels(&base);
    let filtered_labels = labels(&filtered);
    let mut base_iter = base_labels.iter();
    for l in &filtered_labels {
        assert!(base_iter.any(|b| b == l), "{l} out of order");
    }
    assert_eq!(filtered_labels, vec!["Mail", "Maps"]);
}

#[test]
fn search_is_case_insensitive() {
    let catalog = vec![entry("ff", "Firefox")];
    let r = rank(&catalog, &history(&[]), &b"FIRE".to_vec());
    assert_eq!(r.len(), 1);
    let r = rank(&catalog, &history(&[]), &b"fox".to_vec());
    assert_eq!(r.len(), 1);
    let r = rank(&catalog, &history(&[]), &b"fax".to_vec());
    assert_eq!(r.len(), 0);
}

#[test]
fn search_matches_secondary_text() {
    let catalog = vec![entry_with_match("gimp", "Image Editor", "gimp")];
    let r = rank(&catalog, &history(&[]), &b"gim".to_vec());
    assert_eq!(r.len(), 1);
    let r = rank(&catalog, &history(&[]), &b"editor".to_vec());
    assert_eq!(r.len(), 1);
}

#[test]
fn duplicate_labels_keep_catalog_order() {
    let catalog = vec![
        entry_with_match("one", "Term", "first"),
        entry_with_match("two", "Term", "second"),
        entry("a", "Apps"),
    ];
    let r = rank(&catalog, &history(&[]), &Vec::new());
    assert_eq!(labels(&r), vec!["Apps", "Term", "Term"]);
    assert_eq!(r[1].match_text, b"first".to_vec());
    assert_eq!(r[2].match_text, b"second".to_vec());
}

#[test]
fn duplicate_history_ids_claim_once() {
    let catalog = vec![entry("a", "Alpha"), entry("b", "Beta")];
    let r = rank(&catalog, &history(&["b", "b"]), &Vec::new());
    assert_eq!(labels(&r), vec!["Beta", "Alpha"]);
}

#[test]
fn history_id_absent_from_catalog_is_ignored() {
    let catalog = vec![entry("a", "Alpha")];
    let r = rank(&catalog, &history(&["ghost"]), &Vec::new());
    assert_eq!(labels(&r), vec!["Alpha"]);
}

#[test]
fn typing_more_only_shrinks_the_list() {
    let catalog = vec![
        entry("mail", "Mail"),
        entry("maps", "Maps"),
        entry("man", "Manuals"),
        entry("calc", "Calculator"),
    ];
    let hist = history(&["maps"]);
    let short = rank(&catalog, &hist, &b"ma".to_vec());
    let long = rank(&catalog, &hist, &b"mai".to_vec());
    assert_eq!(labels(&short), vec!["Maps", "Mail", "Manuals"]);
    assert_eq!(labels(&long), vec!["Mail"]);
    // Every survivor of the longer search appears in the shorter search's
    // list, in the same relative order.
    let mut shorter = labels(&short).into_iter();
    for l in labels(&long) {
        assert!(shorter.any(|x| x == l));
    }
}

#[test]
fn byte_order_sorts_labels() {
    // Case-sensitive by code point: upper-case letters before lower-case.
    let catalog = vec![entry("a", "apple"), entry("b", "Banana")];
    let r = rank(&catalog, &history(&[]), &Vec::new());
    assert_eq!(labels(&r), vec!["Banana", "apple"]);
}
