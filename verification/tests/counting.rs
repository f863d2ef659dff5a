use blog_core::{HitRecord, ViewCounter};

fn counter_with(slugs: &[&str]) -> ViewCounter {
    ViewCounter::new(slugs.iter().map(|s| s.to_string()).collect())
}

fn count_in(snapshot: &[HitRecord], slug: &str) -> Option<i64> {
    snapshot.iter().find(|r| r.slug == slug).map(|r| r.hits)
}

#[test]
fn each_increment_is_observed_exactly_once() {
    let mut c = counter_with(&["alpha", "beta"]);
    for _ in 0..7 {
        c.increment("alpha");
    }
    c.increment("beta");
    let snap = c.snapshot();
    assert_eq!(count_in(&snap, "alpha"), Some(7));
    assert_eq!(count_in(&snap, "beta"), Some(1));
}

#[test]
fn unknown_slug_never_creates_an_entry() {
    let mut c = counter_with(&["alpha"]);
    c.increment("mallory");
    c.increment("alpha");
    c.increment("mallory");
    let snap = c.snapshot();
    assert_eq!(count_in(&snap, "mallory"), None);
    assert_eq!(count_in(&snap, "alpha"), Some(1));
    assert_eq!(snap.len(), 1);
}

#[test]
fn snapshot_is_a_copy_not_a_live_view() {
    let mut c = counter_with(&["alpha"]);
    c.increment("alpha");
    let snap = c.snapshot();
    c.increment("alpha");
    assert_eq!(count_in(&snap, "alpha"), Some(1));
    assert_eq!(count_in(&c.snapshot(), "alpha"), Some(2));
}

#[test]
fn restore_loads_every_record() {
    let mut c = counter_with(&["a"]);
    let rows = vec![
        HitRecord { slug: "a".to_string(), hits: 3 },
        HitRecord { slug: "b".to_string(), hits: 5 },
    ];
    c.restore(&rows);
    let snap = c.snapshot();
    assert_eq!(count_in(&snap, "a"), Some(3));
    assert_eq!(count_in(&snap, "b"), Some(5));
}

#[test]
fn restore_then_increment_continues_the_count() {
    let mut c = counter_with(&["a"]);
    c.restore(&vec![HitRecord { slug: "a".to_string(), hits: 41 }]);
    c.increment("a");
    assert_eq!(count_in(&c.snapshot(), "a"), Some(42));
}

#[test]
fn count_saturates_at_the_largest_value() {
    let mut c = counter_with(&["a"]);
    c.restore(&vec![HitRecord { slug: "a".to_string(), hits: i64::MAX }]);
    c.increment("a");
    assert_eq!(count_in(&c.snapshot(), "a"), Some(i64::MAX));
}

#[test]
fn fresh_counter_snapshot_is_empty() {
    let c = counter_with(&["a", "b"]);
    assert!(c.snapshot().is_empty());
}
