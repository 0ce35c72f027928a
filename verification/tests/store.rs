use post_feed::post::Post;
use post_feed::store::PostStore;

#[test]
fn new_store_is_empty() {
    let store = PostStore::new();
    assert_eq!(store.len(), 0);
    assert!(store.snapshot().is_empty());
}

#[test]
fn append_assigns_dense_ids_and_keeps_text() {
    let mut store = PostStore::new();
    let a = store.append_at(String::from("hello"), 10);
    let b = store.append_at(String::from("world"), 20);
    let c = store.append_at(String::from(""), 30);
    assert_eq!(a.id, 0);
    assert_eq!(b.id, 1);
    assert_eq!(c.id, 2);
    assert_eq!(a.text, "hello");
    assert_eq!(b.text, "world");
    assert_eq!(c.text, "");
    assert_eq!(a.created_at_ms, 10);
    assert_eq!(b.created_at_ms, 20);
    assert_eq!(c.created_at_ms, 30);
    assert_eq!(store.len(), 3);
}

#[test]
fn append_keeps_unicode_text_verbatim() {
    let mut store = PostStore::new();
    let p = store.append_at(String::from("café ☕ 你好"), 1);
    assert_eq!(p.text, "café ☕ 你好");
    assert_eq!(store.snapshot()[0].text, "café ☕ 你好");
}

#[test]
fn append_clamps_a_backward_clock() {
    let mut store = PostStore::new();
    let a = store.append_at(String::from("first"), 100);
    let b = store.append_at(String::from("second"), 50);
    assert_eq!(a.created_at_ms, 100);
    assert_eq!(b.created_at_ms, 100);
    let c = store.append_at(String::from("third"), 250);
    assert_eq!(c.created_at_ms, 250);
}

#[test]
fn timestamps_never_decrease_along_the_store() {
    let mut store = PostStore::new();
    let readings: [u128; 6] = [5, 3, 9, 9, 2, 12];
    for (i, ms) in readings.iter().enumerate() {
        let text = format!("post {}", i);
        store.append_at(text, *ms);
    }
    let snap = store.snapshot();
    for w in snap.windows(2) {
        assert!(w[0].created_at_ms <= w[1].created_at_ms);
    }
}

#[test]
fn snapshot_is_an_independent_copy() {
    let mut store = PostStore::new();
    store.append_at(String::from("one"), 1);
    store.append_at(String::from("two"), 2);
    let before = store.snapshot();
    let p = store.append_at(String::from("three"), 3);
    let after = store.snapshot();
    assert_eq!(before.len(), 2);
    assert!(!before.iter().any(|q| q.id == p.id));
    assert_eq!(after.len(), 3);
    assert!(after.iter().any(|q| *q == p));
    for q in &after {
        assert_eq!(q, &after[q.id]);
    }
}

#[test]
fn hundred_appends_yield_ids_zero_to_ninety_nine() {
    let mut store = PostStore::new();
    for i in 0..100u32 {
        let text = format!("post {}", i);
        let p = store.append_at(text, u128::from(i));
        assert_eq!(p.id, i as usize);
    }
    let snap = store.snapshot();
    assert_eq!(snap.len(), 100);
    let mut seen = [false; 100];
    for p in &snap {
        assert!(p.id < 100);
        assert!(!seen[p.id]);
        seen[p.id] = true;
    }
    assert!(seen.iter().all(|s| *s));
}

#[test]
fn append_from_the_wall_clock() {
    let mut store = PostStore::new();
    let a = store.append(String::from("now")).expect("the clock should read");
    let b = store.append(String::from("later")).expect("the clock should read");
    assert_eq!(a.id, 0);
    assert_eq!(b.id, 1);
    assert_eq!(a.text, "now");
    assert!(a.created_at_ms <= b.created_at_ms);
    assert!(a.created_at_ms > 0);
}
