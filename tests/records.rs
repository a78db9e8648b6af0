use vessel::records::{delete, join_text, lookup, split_text, upsert};

#[test]
fn split_text_counts_lines() {
    assert_eq!(split_text(b"a\nbc"), vec![b"a".to_vec(), b"bc".to_vec()]);
    assert_eq!(split_text(b""), vec![Vec::<u8>::new()]);
    assert_eq!(split_text(b"x\n"), vec![b"x".to_vec(), Vec::new()]);
}

#[test]
fn join_text_inverts_split() {
    let text = b"veas file\nalice|abc\nbob|xyz".to_vec();
    assert_eq!(join_text(&split_text(&text)), text);
}

#[test]
fn lookup_first_match_wins() {
    let text = b"veas file\nalice|first\nalice|second";
    assert_eq!(lookup(text, b"alice"), Some(b"first".to_vec()));
}

#[test]
fn lookup_needs_delimiter() {
    let text = b"veas file\nalicex|1\nali|2";
    assert_eq!(lookup(text, b"alice"), None);
    assert_eq!(lookup(text, b"ali"), Some(b"2".to_vec()));
}

#[test]
fn lookup_sentinel_only() {
    assert_eq!(lookup(b"veas file", b"veas file"), None);
}

#[test]
fn upsert_appends_new_record() {
    assert_eq!(upsert(b"veas file", b"bob", b"s3cret"), b"veas file\nbob|s3cret".to_vec());
}

#[test]
fn upsert_replaces_existing_secret() {
    let text = b"veas file\nalice|old\nbob|keep";
    assert_eq!(upsert(text, b"alice", b"newer"), b"veas file\nalice|newer\nbob|keep".to_vec());
}

#[test]
fn upsert_twice_overwrites() {
    let t1 = upsert(b"veas file", b"alice", b"one");
    let t2 = upsert(&t1, b"alice", b"two");
    assert_eq!(lookup(&t2, b"alice"), Some(b"two".to_vec()));
    assert_eq!(split_text(&t2).len(), split_text(&t1).len());
    assert_eq!(t2, b"veas file\nalice|two".to_vec());
}

#[test]
fn delete_missing_twice_is_unchanged() {
    let text = b"veas file\nalice|x".to_vec();
    let (once, found1) = delete(&text, b"bob");
    assert!(!found1);
    assert_eq!(once, text);
    let (twice, found2) = delete(&once, b"bob");
    assert!(!found2);
    assert_eq!(twice, text);
}

#[test]
fn delete_removes_first_record() {
    let (out, found) = delete(b"veas file\nalice|x\nbob|y\nalice|z", b"alice");
    assert!(found);
    assert_eq!(out, b"veas file\nbob|y\nalice|z".to_vec());
}
