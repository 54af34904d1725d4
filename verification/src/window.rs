//! The sliding-window eviction model shared by both collections.
//!
//! A stored entry is a `(timestamp, value)` pair, where the timestamp is in
//! nanoseconds of monotonic time since the collection's origin. An entry is
//! fresh at observation time `now` when its age — `now` minus its timestamp,
//! saturating at zero — is strictly below the window. Every observation first
//! discards the entries that are not fresh; `survivors_of` is the
//! mathematical statement of that pass, and the lemmas here state the
//! properties the pass guarantees.

use vstd::prelude::*;

verus! {

/// The age of an entry stamped `timestamp` as seen at `now`: monotonic
/// elapsed time, saturating at zero for an out-of-order reading.
pub open spec fn elapsed_since(now: u64, timestamp: u64) -> int {
    if now >= timestamp {
        now - timestamp
    } else {
        0
    }
}

/// An entry stamped `timestamp` is fresh at `now` iff its age is strictly
/// below the window. With a zero window nothing is ever fresh.
pub open spec fn is_fresh(now: u64, timestamp: u64, window: u64) -> bool {
    elapsed_since(now, timestamp) < window
}

/// The eviction predicate on an entry.
pub open spec fn fresh_pred<T>(now: u64, window: u64) -> spec_fn((u64, T)) -> bool {
    |e: (u64, T)| is_fresh(now, e.0, window)
}

/// The entries of `s` that are fresh at `now`, in their order in `s`:
/// what an observation at `now` sees of a store `s`.
pub open spec fn survivors_of<T>(s: Seq<(u64, T)>, now: u64, window: u64) -> Seq<(u64, T)> {
    s.filter(fresh_pred(now, window))
}

/// The values of a sequence of entries, timestamps stripped.
pub open spec fn values_of<T>(s: Seq<(u64, T)>) -> Seq<T> {
    s.map_values(|e: (u64, T)| e.1)
}

/// One fresh entry is appended by the eviction pass, one stale entry dropped.
pub proof fn lemma_survivors_push<T>(s: Seq<(u64, T)>, e: (u64, T), now: u64, window: u64)
    ensures
        survivors_of(s.push(e), now, window) == (if is_fresh(now, e.0, window) {
            survivors_of(s, now, window).push(e)
        } else {
            survivors_of(s, now, window)
        }),
{
    assert(s.push(e).drop_last() =~= s);
    reveal_with_fuel(Seq::filter, 2);
}

/// An eviction pass at a zero window discards everything.
pub proof fn lemma_zero_window_empty<T>(s: Seq<(u64, T)>, now: u64)
    ensures
        survivors_of(s, now, 0) == Seq::<(u64, T)>::empty(),
    decreases s.len(),
{
    reveal_with_fuel(Seq::filter, 2);
    if s.len() > 0 {
        lemma_zero_window_empty(s.drop_last(), now);
    }
}

/// Freshness: every entry an observation at `now` sees is an entry of the
/// store whose age at `now` is strictly below the window.
pub proof fn lemma_survivors_fresh<T>(s: Seq<(u64, T)>, now: u64, window: u64)
    ensures
        forall|i: int|
            0 <= i < survivors_of(s, now, window).len() ==> {
                &&& is_fresh(now, #[trigger] survivors_of(s, now, window)[i].0, window)
                &&& s.contains(survivors_of(s, now, window)[i])
            },
    decreases s.len(),
{
    broadcast use vstd::seq_lib::group_filter_ensures;

    let out = survivors_of(s, now, window);
    if s.len() > 0 {
        let s0 = s.drop_last();
        let sub = survivors_of(s0, now, window);
        lemma_survivors_fresh(s0, now, window);
        assert(s0.push(s.last()) =~= s);
        lemma_survivors_push(s0, s.last(), now, window);
        assert forall|i: int| 0 <= i < out.len() implies s.contains(out[i]) by {
            if i < sub.len() {
                assert(s0.contains(sub[i]));
                let k = choose|k: int| 0 <= k < s0.len() && s0[k] == sub[i];
                assert(s[k] == out[i]);
            } else {
                assert(out[i] == s.last());
                assert(s[s.len() - 1] == out[i]);
            }
        }
    } else {
        reveal_with_fuel(Seq::filter, 1);
    }
}

/// Completeness: every entry of the store whose age at `now` is strictly
/// below the window is seen by an observation at `now`.
pub proof fn lemma_survivors_complete<T>(s: Seq<(u64, T)>, now: u64, window: u64)
    ensures
        forall|j: int|
            0 <= j < s.len() && is_fresh(now, (#[trigger] s[j]).0, window) ==> survivors_of(
                s,
                now,
                window,
            ).contains(s[j]),
{
    broadcast use vstd::seq_lib::group_filter_ensures;

}

/// An eviction pass over a store whose entries are all fresh keeps it whole.
pub proof fn lemma_survivors_all_fresh<T>(s: Seq<(u64, T)>, now: u64, window: u64)
    requires
        forall|i: int| 0 <= i < s.len() ==> is_fresh(now, (#[trigger] s[i]).0, window),
    ensures
        survivors_of(s, now, window) == s,
    decreases s.len(),
{
    reveal_with_fuel(Seq::filter, 2);
    if s.len() > 0 {
        lemma_survivors_all_fresh(s.drop_last(), now, window);
        assert(survivors_of(s, now, window) =~= s);
    }
}

/// Idempotent purge: an observation right after another one — at a time that
/// has not yet passed any survivor's deadline — sees the same survivors.
pub proof fn lemma_purge_idempotent<T>(s: Seq<(u64, T)>, now1: u64, now2: u64, window: u64)
    requires
        forall|i: int|
            0 <= i < survivors_of(s, now1, window).len() ==> is_fresh(
                now2,
                (#[trigger] survivors_of(s, now1, window)[i]).0,
                window,
            ),
    ensures
        survivors_of(survivors_of(s, now1, window), now2, window) == survivors_of(
            s,
            now1,
            window,
        ),
{
    lemma_survivors_all_fresh(survivors_of(s, now1, window), now2, window);
}

/// Where an entry of the store lands among the survivors: the number of
/// fresh entries strictly before it.
pub open spec fn survivor_index<T>(s: Seq<(u64, T)>, now: u64, window: u64, i: int) -> int {
    survivors_of(s.take(i), now, window).len() as int
}

/// The survivors of a prefix of the store are the matching prefix of the
/// survivors of the whole store.
proof fn lemma_survivors_prefix<T>(s: Seq<(u64, T)>, now: u64, window: u64, k: int)
    requires
        0 <= k <= s.len(),
    ensures
        survivors_of(s.take(k), now, window).len() <= survivors_of(s, now, window).len(),
        survivors_of(s.take(k), now, window) == survivors_of(s, now, window).take(
            survivors_of(s.take(k), now, window).len() as int,
        ),
    decreases s.len() - k,
{
    let out = survivors_of(s, now, window);
    if k == s.len() {
        assert(s.take(k) =~= s);
        assert(out.take(out.len() as int) =~= out);
    } else {
        lemma_survivors_prefix(s, now, window, k + 1);
        assert(s.take(k + 1) =~= s.take(k).push(s[k]));
        lemma_survivors_push(s.take(k), s[k], now, window);
        let n = survivors_of(s.take(k), now, window).len();
        let n1 = survivors_of(s.take(k + 1), now, window).len();
        assert(out.take(n1 as int).take(n as int) =~= out.take(n as int));
        if is_fresh(now, s[k].0, window) {
            assert(survivors_of(s.take(k), now, window) == survivors_of(
                s.take(k + 1),
                now,
                window,
            ).drop_last());
            assert(out.take(n1 as int).drop_last() =~= out.take(n as int));
        }
    }
}

/// Order preservation: if the entries at positions `i < j` of the store are
/// both fresh at `now`, the observation at `now` yields them both, and the
/// first still comes before the second.
pub proof fn lemma_order_preserved<T>(s: Seq<(u64, T)>, now: u64, window: u64, i: int, j: int)
    requires
        0 <= i < j < s.len(),
        is_fresh(now, s[i].0, window),
        is_fresh(now, s[j].0, window),
    ensures
        ({
            let out = survivors_of(s, now, window);
            let ii = survivor_index(s, now, window, i);
            let jj = survivor_index(s, now, window, j);
            &&& 0 <= ii < jj < out.len()
            &&& out[ii] == s[i]
            &&& out[jj] == s[j]
        }),
{
    let out = survivors_of(s, now, window);
    lemma_survivor_at(s, now, window, i);
    lemma_survivor_at(s, now, window, j);
    lemma_survivor_index_monotone(s, now, window, i + 1, j);
}

/// A fresh entry of the store stands among the survivors at its
/// `survivor_index`, and the next prefix count is one higher.
proof fn lemma_survivor_at<T>(s: Seq<(u64, T)>, now: u64, window: u64, i: int)
    requires
        0 <= i < s.len(),
        is_fresh(now, s[i].0, window),
    ensures
        survivor_index(s, now, window, i) + 1 == survivor_index(s, now, window, i + 1),
        survivor_index(s, now, window, i + 1) <= survivors_of(s, now, window).len(),
        survivors_of(s, now, window)[survivor_index(s, now, window, i)] == s[i],
{
    assert(s.take(i + 1) =~= s.take(i).push(s[i]));
    lemma_survivors_push(s.take(i), s[i], now, window);
    lemma_survivors_prefix(s, now, window, i + 1);
    let n = survivor_index(s, now, window, i);
    let out = survivors_of(s, now, window);
    assert(survivors_of(s.take(i + 1), now, window)[n] == s[i]);
    assert(out.take(n + 1)[n] == out[n]);
}

/// The survivor count of a prefix never decreases as the prefix grows.
proof fn lemma_survivor_index_monotone<T>(s: Seq<(u64, T)>, now: u64, window: u64, a: int, b: int)
    requires
        0 <= a <= b <= s.len(),
    ensures
        survivor_index(s, now, window, a) <= survivor_index(s, now, window, b),
    decreases b - a,
{
    if a < b {
        lemma_survivor_index_monotone(s, now, window, a, b - 1);
        assert(s.take(b) =~= s.take(b - 1).push(s[b - 1]));
        lemma_survivors_push(s.take(b - 1), s[b - 1], now, window);
    }
}

/// An eviction pass never introduces a duplicate entry.
pub proof fn lemma_survivors_unique<T>(s: Seq<(u64, T)>, now: u64, window: u64)
    requires
        s.no_duplicates(),
    ensures
        survivors_of(s, now, window).no_duplicates(),
    decreases s.len(),
{
    if s.len() > 0 {
        let s0 = s.drop_last();
        let e = s.last();
        lemma_survivors_unique(s0, now, window);
        assert(s0.push(e) =~= s);
        lemma_survivors_push(s0, e, now, window);
        if is_fresh(now, e.0, window) {
            lemma_survivors_fresh(s0, now, window);
            let out = survivors_of(s, now, window);
            assert forall|i: int, j: int|
                0 <= i < out.len() && 0 <= j < out.len() && i != j implies out[i] != out[j] by {
                let sub = survivors_of(s0, now, window);
                if i == out.len() - 1 || j == out.len() - 1 {
                    let m = if i == out.len() - 1 {
                        j
                    } else {
                        i
                    };
                    assert(s0.contains(sub[m]));
                    let k = choose|k: int| 0 <= k < s0.len() && s0[k] == sub[m];
                    assert(s[k] == out[m]);
                    assert(s[k] != s[s.len() - 1]);
                }
            }
        }
    } else {
        reveal_with_fuel(Seq::filter, 1);
    }
}

/// The entries shifted forward by `d` nanoseconds: the same values, each
/// timestamp moved `d` later.
pub open spec fn shifted<T>(s: Seq<(u64, T)>, d: u64) -> Seq<(u64, T)> {
    s.map_values(|e: (u64, T)| (((e.0 + d) as u64), e.1))
}

/// Clock robustness: an observation depends only on elapsed monotonic time.
/// Moving every timestamp and the observation instant by the same amount —
/// as any jump of a wall clock would, were one consulted — changes nothing:
/// the survivors are the shifted survivors of the unshifted store.
pub proof fn lemma_shift_invariant<T>(s: Seq<(u64, T)>, now: u64, window: u64, d: u64)
    requires
        now + d <= u64::MAX,
        forall|i: int| 0 <= i < s.len() ==> (#[trigger] s[i]).0 + d <= u64::MAX,
    ensures
        survivors_of(shifted(s, d), (now + d) as u64, window) == shifted(
            survivors_of(s, now, window),
            d,
        ),
    decreases s.len(),
{
    reveal_with_fuel(Seq::filter, 2);
    if s.len() == 0 {
        assert(shifted(s, d) =~= Seq::<(u64, T)>::empty());
        assert(survivors_of(s, now, window) =~= Seq::<(u64, T)>::empty());
        assert(shifted(survivors_of(s, now, window), d) =~= Seq::<(u64, T)>::empty());
    } else {
        let s0 = s.drop_last();
        let e = s.last();
        let e2 = (((e.0 + d) as u64), e.1);
        lemma_shift_invariant(s0, now, window, d);
        assert(s0.push(e) =~= s);
        assert(shifted(s0, d).push(e2) =~= shifted(s, d));
        lemma_survivors_push(s0, e, now, window);
        lemma_survivors_push(shifted(s0, d), e2, (now + d) as u64, window);
        assert(is_fresh((now + d) as u64, e2.0, window) == is_fresh(now, e.0, window));
        if is_fresh(now, e.0, window) {
            assert(shifted(survivors_of(s0, now, window), d).push(e2) =~= shifted(
                survivors_of(s0, now, window).push(e),
                d,
            ));
        }
    }
}

/// The eviction pass, shared by both collections: keep exactly the entries
/// that are fresh at `now`, in their stored order.
pub(crate) fn retain_fresh<T>(entries: &mut Vec<(u64, T)>, now: u64, window: u64)
    ensures
        final(entries)@ == survivors_of(old(entries)@, now, window),
{
    let mut pending: Vec<(u64, T)> = Vec::new();
    core::mem::swap(entries, &mut pending);
    let ghost orig: Seq<(u64, T)> = pending@;
    proof {
        assert(orig.take(0) =~= Seq::<(u64, T)>::empty());
        reveal_with_fuel(Seq::filter, 1);
    }
    let ghost mut done: int = 0;
    while pending.len() > 0
        invariant
            0 <= done <= orig.len(),
            pending@ == orig.skip(done),
            entries@ == survivors_of(orig.take(done), now, window),
        decreases pending@.len(),
    {
        let e = pending.remove(0);
        let age: u64 = if now >= e.0 {
            now - e.0
        } else {
            0
        };
        proof {
            assert(orig.take(done + 1) =~= orig.take(done).push(orig[done]));
            assert(e == orig[done]);
            lemma_survivors_push(orig.take(done), orig[done], now, window);
            assert(pending@ =~= orig.skip(done + 1));
        }
        if age < window {
            entries.push(e);
        }
        proof {
            done = done + 1;
        }
    }
    proof {
        assert(orig.take(done) =~= orig);
    }
}

} // verus!

