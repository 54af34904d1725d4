use windowed::WinVec;

const MS: u64 = 1_000_000;

fn wait_ms(ms: u64) {
    let start = std::time::Instant::now();
    while start.elapsed() < std::time::Duration::from_millis(ms) {}
}

fn strings(items: &[&str]) -> Vec<String> {
    items.iter().map(|s| s.to_string()).collect()
}

#[test]
fn sequence_all_fresh() {
    let mut v: WinVec<String> = WinVec::with_duration(60_000 * MS);
    v.push("a".to_string());
    v.push("b".to_string());
    wait_ms(10);
    assert_eq!(v.len(), 2);
    assert_eq!(v.iter(), strings(&["a", "b"]));
}

#[test]
fn sequence_partial_expiry() {
    let mut v: WinVec<String> = WinVec::with_duration(200 * MS);
    v.push("a".to_string());
    wait_ms(300);
    v.push("b".to_string());
    assert_eq!(v.len(), 1);
    assert_eq!(v.iter(), strings(&["b"]));
}

#[test]
fn sequence_explicit_past_timestamp() {
    let mut v: WinVec<String> = WinVec::with_duration(500 * MS);
    wait_ms(700);
    v.push_with_timestamp("old".to_string(), 1);
    v.push("new".to_string());
    assert_eq!(v.len(), 1);
    assert_eq!(v.iter(), strings(&["new"]));
}

#[test]
fn sequence_zero_window() {
    let mut v: WinVec<String> = WinVec::with_duration(0);
    v.push("a".to_string());
    assert_eq!(v.len(), 0);
    assert_eq!(v.iter(), Vec::<String>::new());
    let mut w: WinVec<String> = WinVec::with_duration(0);
    w.push("b".to_string());
    assert_eq!(w.drain(), Vec::<String>::new());
}

#[test]
fn sequence_empty_observations() {
    let mut v: WinVec<u32> = WinVec::with_duration(100 * MS);
    assert_eq!(v.len(), 0);
    assert_eq!(v.iter(), Vec::<u32>::new());
    let v2: WinVec<u32> = WinVec::with_duration(100 * MS);
    assert_eq!(v2.drain(), Vec::<u32>::new());
}

#[test]
fn sequence_order_preserved() {
    let mut v: WinVec<String> = WinVec::with_duration(60_000 * MS);
    v.push("a".to_string());
    v.push("b".to_string());
    v.push("c".to_string());
    assert_eq!(v.iter(), strings(&["a", "b", "c"]));
}

#[test]
fn sequence_idempotent_observation() {
    let mut v: WinVec<String> = WinVec::with_duration(60_000 * MS);
    v.push("a".to_string());
    v.push("b".to_string());
    let first = v.len();
    let second = v.len();
    assert_eq!(first, second);
    let once = v.iter();
    let twice = v.iter();
    assert_eq!(once, twice);
}

#[test]
fn sequence_drain_moves_survivors() {
    let mut v: WinVec<String> = WinVec::with_duration(60_000 * MS);
    v.push("a".to_string());
    v.push("b".to_string());
    assert_eq!(v.drain(), strings(&["a", "b"]));
}

#[test]
fn sequence_purge_at_is_permanent() {
    let mut v: WinVec<String> = WinVec::with_duration(100 * MS);
    v.push_with_timestamp("a".to_string(), 0);
    v.push_with_timestamp("b".to_string(), 50 * MS);
    v.purge_at(120 * MS);
    assert_eq!(v.iter(), strings(&["b"]));
}

#[test]
fn sequence_future_timestamp_saturates() {
    // A reading "before" an entry's timestamp has zero elapsed time, so the
    // entry stays fresh: out-of-order readings never cause mass eviction.
    let mut v: WinVec<String> = WinVec::with_duration(100 * MS);
    v.push_with_timestamp("later".to_string(), 3_600_000 * MS);
    assert_eq!(v.len(), 1);
    assert_eq!(v.iter(), strings(&["later"]));
}

#[test]
fn sequence_widest_window_keeps_all() {
    let mut v: WinVec<u32> = WinVec::with_duration(u64::MAX);
    v.push_with_timestamp(1, 0);
    v.push_with_timestamp(2, u64::MAX - 1);
    v.push(3);
    assert_eq!(v.len(), 3);
    assert_eq!(v.iter(), vec![1, 2, 3]);
}

#[test]
fn sequence_duplicates_allowed() {
    let mut v: WinVec<String> = WinVec::with_duration(60_000 * MS);
    v.push("a".to_string());
    v.push("a".to_string());
    assert_eq!(v.len(), 2);
    assert_eq!(v.iter(), strings(&["a", "a"]));
}

#[test]
fn sequence_expire_all() {
    let mut v: WinVec<String> = WinVec::with_duration(100 * MS);
    v.push("a".to_string());
    wait_ms(300);
    assert_eq!(v.len(), 0);
    assert_eq!(v.iter(), Vec::<String>::new());
}
