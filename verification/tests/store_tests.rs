use tana_edge::store::{CommitError, PatternError, SetError, StagedStore};

#[test]
fn set_then_get_shadows_committed() {
    let mut s = StagedStore::new();
    s.set("greeting", String::from("hello")).unwrap();
    assert_eq!(s.get("greeting"), Some(String::from("hello")));
    assert!(s.has("greeting"));

    s.commit().unwrap();
    s.set("greeting", String::from("bye")).unwrap();
    assert_eq!(s.get("greeting"), Some(String::from("bye")));
}

#[test]
fn staged_delete_hides_committed_value() {
    let mut s = StagedStore::new();
    s.set("k", String::from("v")).unwrap();
    s.commit().unwrap();
    assert!(s.has("k"));

    s.delete("k");
    assert!(!s.has("k"));
    assert_eq!(s.get("k"), None);

    s.commit().unwrap();
    assert!(!s.has("k"));
}

#[test]
fn oversized_value_always_rejected_and_invisible() {
    let mut s = StagedStore::new();
    let big = "x".repeat(10241);
    assert_eq!(s.set("k", big), Err(SetError::ValueTooLarge));
    assert_eq!(s.get("k"), None);
    assert!(!s.keys(None).unwrap().iter().any(|k| k == "k"));

    let just_fits = "x".repeat(10240);
    assert_eq!(s.set("k", just_fits), Ok(()));
}

#[test]
fn oversized_key_rejected() {
    let mut s = StagedStore::new();
    let key = "k".repeat(257);
    assert_eq!(s.set(&key, String::from("v")), Err(SetError::KeyTooLarge));
    let key_ok = "k".repeat(256);
    assert_eq!(s.set(&key_ok, String::from("v")), Ok(()));
}

#[test]
fn commit_over_total_size_fails_and_preserves_committed() {
    let mut s = StagedStore::new();
    s.set("base", String::from("value")).unwrap();
    s.commit().unwrap();

    // Eleven staged writes of 10240 bytes each exceed the 102400-byte cap.
    for i in 0..11 {
        let key = format!("big{:02}", i);
        s.set(&key, "y".repeat(10240)).unwrap();
    }
    assert_eq!(s.commit(), Err(CommitError::TotalSizeExceeded));

    // The committed layer is untouched: an unshadowed committed key still
    // reads its old value.
    assert_eq!(s.get("base"), Some(String::from("value")));
}

#[test]
fn commit_over_key_count_fails() {
    let mut s = StagedStore::new();
    for i in 0..1001 {
        let key = format!("k{:04}", i);
        s.set(&key, String::from("v")).unwrap();
    }
    assert_eq!(s.commit(), Err(CommitError::TooManyKeys));

    let mut t = StagedStore::new();
    for i in 0..1000 {
        let key = format!("k{:04}", i);
        t.set(&key, String::from("v")).unwrap();
    }
    assert_eq!(t.commit(), Ok(()));
}

#[test]
fn commit_twice_is_idempotent() {
    let mut s = StagedStore::new();
    s.set("a", String::from("1")).unwrap();
    s.set("b", String::from("2")).unwrap();
    assert_eq!(s.commit(), Ok(()));

    let before: Vec<String> = s.keys(None).unwrap();
    assert_eq!(s.commit(), Ok(()));
    assert_eq!(s.keys(None).unwrap(), before);
    assert_eq!(s.get("a"), Some(String::from("1")));
    assert_eq!(s.get("b"), Some(String::from("2")));
}

#[test]
fn commit_applies_overwrites_and_deletes() {
    let mut s = StagedStore::new();
    s.set("k", String::from("v1")).unwrap();
    s.set("gone", String::from("x")).unwrap();
    s.commit().unwrap();

    s.set("k", String::from("v2")).unwrap();
    s.delete("gone");
    s.commit().unwrap();

    assert_eq!(s.get("k"), Some(String::from("v2")));
    assert!(!s.has("gone"));
    assert_eq!(s.entries(), vec![(String::from("k"), String::from("v2"))]);
}

#[test]
fn keys_sorted_and_merged() {
    let mut s = StagedStore::new();
    s.set("user:bob", String::from("b")).unwrap();
    s.set("cfg", String::from("c")).unwrap();
    s.commit().unwrap();
    s.set("user:alice", String::from("a")).unwrap();
    s.delete("cfg");

    let ks = s.keys(None).unwrap();
    assert_eq!(ks, vec![String::from("user:alice"), String::from("user:bob")]);
}

#[test]
fn keys_glob_filter() {
    let mut s = StagedStore::new();
    s.set("user:alice", String::from("a")).unwrap();
    s.set("user:bob", String::from("b")).unwrap();
    s.set("tx:1", String::from("t")).unwrap();
    s.commit().unwrap();

    let ks = s.keys(Some("user:*")).unwrap();
    assert_eq!(ks, vec![String::from("user:alice"), String::from("user:bob")]);

    let none = s.keys(Some("nothing*here")).unwrap();
    assert!(none.is_empty());
}

#[test]
fn keys_invalid_pattern_rejected() {
    let s = StagedStore::new();
    assert_eq!(s.keys(Some("(")), Err(PatternError::InvalidPattern));
}

#[test]
fn entries_lists_live_pairs_sorted() {
    let mut s = StagedStore::new();
    s.set("b", String::from("2")).unwrap();
    s.set("a", String::from("1")).unwrap();
    s.commit().unwrap();
    s.set("c", String::from("3")).unwrap();
    s.delete("a");

    let es = s.entries();
    assert_eq!(
        es,
        vec![
            (String::from("b"), String::from("2")),
            (String::from("c"), String::from("3")),
        ]
    );
}

#[test]
fn clear_empties_both_layers() {
    let mut s = StagedStore::new();
    s.set("a", String::from("1")).unwrap();
    s.commit().unwrap();
    s.set("b", String::from("2")).unwrap();
    s.clear();
    assert!(!s.has("a"));
    assert!(!s.has("b"));
    assert!(s.keys(None).unwrap().is_empty());
}
