use waymenu::text::{eq_bytes, find_insensitive, find_substring, lex_leq_bytes, lower_bytes};

#[test]
fn lexicographic_order_on_bytes() {
    let a = b"Alpha".to_vec();
    let b = b"Beta".to_vec();
    assert!(lex_leq_bytes(&a, &b));
    assert!(!lex_leq_bytes(&b, &a));
    assert!(lex_leq_bytes(&a, &a));
    // A prefix comes first.
    assert!(lex_leq_bytes(&b"Alp".to_vec(), &a));
    assert!(!lex_leq_bytes(&a, &b"Alp".to_vec()));
    // The empty string comes first of all.
    assert!(lex_leq_bytes(&Vec::new(), &a));
}

#[test]
fn substring_search_finds_inner_matches() {
    let hay = b"hello world".to_vec();
    assert!(find_substring(&b"lo wo".to_vec(), &hay));
    assert!(find_substring(&Vec::new(), &hay));
    assert!(find_substring(&hay, &hay));
    assert!(!find_substring(&b"worlds".to_vec(), &hay));
    assert!(!find_substring(&b"hello world!".to_vec(), &hay));
}

#[test]
fn case_insensitive_search_folds_ascii_only() {
    assert!(find_insensitive(&b"FIRE".to_vec(), &b"firefox".to_vec()));
    assert!(find_insensitive(&b"fox".to_vec(), &b"FIREFOX".to_vec()));
    assert!(!find_insensitive(&b"fax".to_vec(), &b"firefox".to_vec()));
    // Non-letters are left alone.
    assert!(find_insensitive(&b"2-b".to_vec(), &b"A2-B7".to_vec()));
}

#[test]
fn lowering_maps_only_ascii_letters() {
    assert_eq!(lower_bytes(&b"A-Z az 09".to_vec()), b"a-z az 09".to_vec());
}

#[test]
fn byte_equality() {
    assert!(eq_bytes(&b"abc".to_vec(), &b"abc".to_vec()));
    assert!(!eq_bytes(&b"abc".to_vec(), &b"abd".to_vec()));
    assert!(!eq_bytes(&b"abc".to_vec(), &b"ab".to_vec()));
    assert!(eq_bytes(&Vec::new(), &Vec::new()));
}
