use windowed::winset::WinSet;

const MS: u64 = 1_000_000;

fn pause_ms(ms: u64) {
    let start = std::time::Instant::now();
    while start.elapsed() < std::time::Duration::from_millis(ms) {}
}

fn sorted(mut items: Vec<String>) -> Vec<String> {
    items.sort();
    items
}

fn owned(items: &[&str]) -> Vec<String> {
    items.iter().map(|s| s.to_string()).collect()
}

#[test]
fn set_uniqueness_within_instant_batch() {
    let mut s: WinSet<String> = WinSet::from_set(owned(&["x", "y", "x"]), 60_000 * MS);
    assert_eq!(s.len(), 2);
    assert_eq!(sorted(s.iter()), owned(&["x", "y"]));
}

#[test]
fn set_duplicate_across_instants() {
    let mut s: WinSet<String> = WinSet::with_duration(60_000 * MS);
    s.insert("x".to_string());
    pause_ms(30);
    s.insert("x".to_string());
    assert_eq!(s.len(), 2);
    assert_eq!(s.iter(), owned(&["x", "x"]));
    assert_eq!(s.drain(), owned(&["x"]));
}

#[test]
fn set_zero_window() {
    let mut s: WinSet<String> = WinSet::with_duration(0);
    s.insert("a".to_string());
    assert_eq!(s.len(), 0);
    assert_eq!(s.iter(), Vec::<String>::new());
    let mut t: WinSet<String> = WinSet::with_duration(0);
    t.insert("b".to_string());
    assert_eq!(t.drain(), Vec::<String>::new());
}

#[test]
fn set_duplicate_pair_stored_once() {
    let mut s: WinSet<String> = WinSet::with_duration(60_000 * MS);
    s.insert_with_timestamp("x".to_string(), 5 * MS);
    s.insert_with_timestamp("x".to_string(), 5 * MS);
    assert_eq!(s.len(), 1);
    assert_eq!(s.iter(), owned(&["x"]));
}

#[test]
fn set_partial_expiry() {
    let mut s: WinSet<String> = WinSet::with_duration(200 * MS);
    s.insert("a".to_string());
    pause_ms(300);
    s.insert("b".to_string());
    assert_eq!(s.len(), 1);
    assert_eq!(s.iter(), owned(&["b"]));
}

#[test]
fn set_explicit_past_timestamp() {
    let mut s: WinSet<String> = WinSet::with_duration(500 * MS);
    pause_ms(700);
    s.insert_with_timestamp("old".to_string(), 1);
    s.insert("new".to_string());
    assert_eq!(s.len(), 1);
    assert_eq!(s.iter(), owned(&["new"]));
}

#[test]
fn set_duration_accessor() {
    let s: WinSet<String> = WinSet::with_duration(250 * MS);
    assert_eq!(s.duration(), 250 * MS);
    let t: WinSet<String> = WinSet::from_set(owned(&["a"]), 42);
    assert_eq!(t.duration(), 42);
}

#[test]
fn set_distinct_values() {
    let mut s: WinSet<String> = WinSet::with_duration(60_000 * MS);
    s.insert("x".to_string());
    s.insert("y".to_string());
    s.insert("z".to_string());
    assert_eq!(s.len(), 3);
    assert_eq!(sorted(s.drain()), owned(&["x", "y", "z"]));
}

#[test]
fn set_idempotent_observation() {
    let mut s: WinSet<u64> = WinSet::with_duration(60_000 * MS);
    s.insert(1);
    s.insert(2);
    let first = s.len();
    let second = s.len();
    assert_eq!(first, second);
    let once = s.iter();
    let twice = s.iter();
    assert_eq!(once, twice);
}

#[test]
fn set_empty_observations() {
    let mut s: WinSet<u64> = WinSet::with_duration(100 * MS);
    assert_eq!(s.len(), 0);
    assert_eq!(s.iter(), Vec::<u64>::new());
    let t: WinSet<u64> = WinSet::with_duration(100 * MS);
    assert_eq!(t.drain(), Vec::<u64>::new());
}

#[test]
fn set_purge_at_is_permanent() {
    let mut s: WinSet<u64> = WinSet::with_duration(100 * MS);
    s.insert_with_timestamp(7, 0);
    s.insert_with_timestamp(8, 50 * MS);
    s.purge_at(120 * MS);
    assert_eq!(s.iter(), vec![8]);
}

#[test]
fn set_from_set_keeps_first_occurrences() {
    let mut s: WinSet<String> = WinSet::from_set(owned(&["b", "a", "b", "c", "a"]), 60_000 * MS);
    assert_eq!(s.len(), 3);
    assert_eq!(s.iter(), owned(&["b", "a", "c"]));
}

#[test]
fn set_drain_keeps_insertion_order_of_first_occurrences() {
    let mut s: WinSet<String> = WinSet::with_duration(60_000 * MS);
    s.insert("b".to_string());
    pause_ms(2);
    s.insert("a".to_string());
    pause_ms(2);
    s.insert("b".to_string());
    assert_eq!(s.len(), 3);
    assert_eq!(s.drain(), owned(&["b", "a"]));
}
