use waymenu::history::{join_lines_exec, load_history, record_history, split_lines_exec,
    update_history};

fn ids(list: &[&str]) -> Vec<Vec<u8>> {
    list.iter().map(|s| s.as_bytes().to_vec()).collect()
}

#[test]
fn load_missing_file_is_empty() {
    assert_eq!(load_history(&Vec::new(), 10), Vec::<Vec<u8>>::new());
}

#[test]
fn load_returns_lines_in_file_order() {
    let content = b"beta\nalpha\ngamma".to_vec();
    assert_eq!(load_history(&content, 10), ids(&["beta", "alpha", "gamma"]));
}

#[test]
fn load_truncates_to_limit() {
    let content = b"a\nb\nc\nd".to_vec();
    assert_eq!(load_history(&content, 2), ids(&["a", "b"]));
}

#[test]
fn load_with_zero_limit_is_always_empty() {
    let content = b"a\nb".to_vec();
    assert_eq!(load_history(&content, 0), Vec::<Vec<u8>>::new());
}

#[test]
fn load_tolerates_trailing_newline_and_cr() {
    assert_eq!(load_history(&b"a\nb\n".to_vec(), 10), ids(&["a", "b"]));
    assert_eq!(load_history(&b"a\r\nb".to_vec(), 10), ids(&["a", "b"]));
}

#[test]
fn update_prepends_new_id() {
    let h = ids(&["b", "c"]);
    let r = update_history(&h, &b"a".to_vec(), 10);
    assert_eq!(r, ids(&["a", "b", "c"]));
}

#[test]
fn update_moves_existing_id_to_front() {
    let h = ids(&["a", "b", "c"]);
    let r = update_history(&h, &b"b".to_vec(), 10);
    assert_eq!(r, ids(&["b", "a", "c"]));
    assert_eq!(r.len(), h.len());
}

#[test]
fn update_is_idempotent_for_front_id() {
    let h = ids(&["a", "b"]);
    let once = update_history(&h, &b"a".to_vec(), 10);
    let twice = update_history(&once, &b"a".to_vec(), 10);
    assert_eq!(once, twice);
    assert_eq!(once, ids(&["a", "b"]));
}

#[test]
fn update_truncates_to_limit() {
    let h = ids(&["a", "b", "c"]);
    let r = update_history(&h, &b"d".to_vec(), 3);
    assert_eq!(r, ids(&["d", "a", "b"]));
}

#[test]
fn update_with_zero_limit_is_empty() {
    let h = ids(&["a", "b"]);
    assert_eq!(update_history(&h, &b"c".to_vec(), 0), Vec::<Vec<u8>>::new());
}

#[test]
fn distinct_launches_stack_most_recent_first() {
    let mut h: Vec<Vec<u8>> = Vec::new();
    for id in ["one", "two", "three"] {
        h = update_history(&h, &id.as_bytes().to_vec(), 5);
    }
    assert_eq!(h, ids(&["three", "two", "one"]));
}

#[test]
fn distinct_launches_hold_at_most_the_limit() {
    let mut h: Vec<Vec<u8>> = Vec::new();
    for id in ["one", "two", "three", "four", "five"] {
        h = update_history(&h, &id.as_bytes().to_vec(), 3);
    }
    assert_eq!(h, ids(&["five", "four", "three"]));
}

#[test]
fn record_then_load_round_trips() {
    let content = b"b\nc".to_vec();
    let written = record_history(&content, &b"a".to_vec(), 5).unwrap();
    assert_eq!(written, b"a\nb\nc".to_vec());
    assert_eq!(load_history(&written, 5), ids(&["a", "b", "c"]));
}

#[test]
fn record_relaunch_round_trips() {
    let content = b"a\nb\nc".to_vec();
    let written = record_history(&content, &b"c".to_vec(), 5).unwrap();
    assert_eq!(written, b"c\na\nb".to_vec());
    assert_eq!(load_history(&written, 5), ids(&["c", "a", "b"]));
}

#[test]
fn record_with_zero_limit_writes_nothing() {
    let content = b"a\nb".to_vec();
    assert!(record_history(&content, &b"c".to_vec(), 0).is_none());
}

#[test]
fn record_on_missing_file_starts_history() {
    let written = record_history(&Vec::new(), &b"a".to_vec(), 5).unwrap();
    assert_eq!(written, b"a".to_vec());
    assert_eq!(load_history(&written, 5), ids(&["a"]));
}

#[test]
fn record_respects_limit_when_rereading() {
    // The file holds more lines than the limit; the re-read is bounded, so
    // the write keeps the newest `limit` entries only.
    let content = b"a\nb\nc\nd".to_vec();
    let written = record_history(&content, &b"x".to_vec(), 3).unwrap();
    assert_eq!(written, b"x\na\nb".to_vec());
}

#[test]
fn split_and_join_are_inverse_on_plain_ids() {
    let h = ids(&["alpha.desktop", "beta.desktop"]);
    let joined = join_lines_exec(&h);
    assert_eq!(split_lines_exec(&joined), h);
}

#[test]
fn split_keeps_interior_empty_lines() {
    assert_eq!(split_lines_exec(&b"a\n\nb".to_vec()), ids(&["a", "", "b"]));
}

#[test]
fn join_empty_history_is_empty_file() {
    assert_eq!(join_lines_exec(&Vec::new()), Vec::<u8>::new());
    assert_eq!(split_lines_exec(&Vec::new()), Vec::<Vec<u8>>::new());
}
