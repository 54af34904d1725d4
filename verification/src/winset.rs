//! The windowed set.
//!
//! Storage is unique over `(timestamp, value)` pairs, not over values alone:
//! re-inserting a value at a later instant adds a second storage entry, and
//! `len` and `iter` count and yield each storage entry, while `drain`
//! collapses the surviving values to one occurrence each. Equality on the
//! element type is the caller's `==`; the exact clauses below therefore hold
//! under [`obeys_concrete_eq`], which says that `==` agrees with logical
//! equality, as it does for the integer and tuple types vstd covers.

use std::hash::Hash;

use vstd::laws_eq::obeys_concrete_eq;
use vstd::prelude::*;

use crate::clock;
use crate::window;
use crate::window::{is_fresh, survivors_of, values_of};

verus! {

/// The first occurrence of each value of `vs`, in order of first appearance:
/// what a deduplicating pass over `vs` keeps.
pub open spec fn first_occurrences<T>(vs: Seq<T>) -> Seq<T>
    decreases vs.len(),
{
    if vs.len() == 0 {
        Seq::empty()
    } else if vs.drop_last().contains(vs.last()) {
        first_occurrences(vs.drop_last())
    } else {
        first_occurrences(vs.drop_last()).push(vs.last())
    }
}

/// Every value of `vs` appears in its deduplication, and nothing else does.
pub proof fn lemma_first_occurrences_elems<T>(vs: Seq<T>, v: T)
    ensures
        first_occurrences(vs).contains(v) <==> vs.contains(v),
    decreases vs.len(),
{
    reveal_with_fuel(first_occurrences, 2);
    if vs.len() > 0 {
        lemma_first_occurrences_elems(vs.drop_last(), v);
        let out = first_occurrences(vs);
        let sub = first_occurrences(vs.drop_last());
        if vs.contains(v) {
            let k = choose|k: int| 0 <= k < vs.len() && vs[k] == v;
            if k < vs.len() - 1 {
                assert(vs.drop_last()[k] == v);
                assert(sub.contains(v));
                if !vs.drop_last().contains(vs.last()) {
                    let m = choose|m: int| 0 <= m < sub.len() && sub[m] == v;
                    assert(out[m] == v);
                }
            } else {
                if vs.drop_last().contains(vs.last()) {
                    assert(sub.contains(v));
                } else {
                    assert(out.last() == v);
                }
            }
        }
        if out.contains(v) {
            let k = choose|k: int| 0 <= k < out.len() && out[k] == v;
            if vs.drop_last().contains(vs.last()) {
                assert(sub.contains(v));
            } else {
                if k < out.len() - 1 {
                    assert(sub[k] == v);
                } else {
                    assert(v == vs.last());
                }
            }
            if sub.contains(v) {
                let m = choose|m: int| 0 <= m < vs.drop_last().len() && vs.drop_last()[m] == v;
                assert(vs[m] == v);
            }
            assert(vs.contains(v));
        }
    }
}

/// A deduplicating pass leaves no value twice.
pub proof fn lemma_first_occurrences_unique<T>(vs: Seq<T>)
    ensures
        first_occurrences(vs).no_duplicates(),
    decreases vs.len(),
{
    reveal_with_fuel(first_occurrences, 2);
    if vs.len() > 0 {
        lemma_first_occurrences_unique(vs.drop_last());
        if !vs.drop_last().contains(vs.last()) {
            lemma_first_occurrences_elems(vs.drop_last(), vs.last());
        }
    }
}

/// The values of `vs`, each stamped with the one instant `t`.
pub open spec fn stamped<T>(vs: Seq<T>, t: u64) -> Seq<(u64, T)> {
    vs.map_values(|v: T| (t, v))
}

/// The set duplicate rule: one value stored at two distinct instants, both
/// still inside the window, survives eviction twice — the count and the
/// yielded values have length two — while a deduplicating drain keeps it
/// once.
pub proof fn lemma_duplicate_instants<T>(x: T, t1: u64, t2: u64, now: u64, window: u64)
    requires
        t1 != t2,
        is_fresh(now, t1, window),
        is_fresh(now, t2, window),
    ensures
        ({
            let s = seq![(t1, x), (t2, x)];
            &&& survivors_of(s, now, window) == s
            &&& values_of(survivors_of(s, now, window)) == seq![x, x]
            &&& first_occurrences(values_of(survivors_of(s, now, window))) == seq![x]
        }),
{
    let s = seq![(t1, x), (t2, x)];
    window::lemma_survivors_all_fresh(s, now, window);
    assert(values_of(s) =~= seq![x, x]);
    reveal_with_fuel(first_occurrences, 3);
    assert(seq![x, x].drop_last() =~= seq![x]);
    assert(seq![x].drop_last() =~= Seq::<T>::empty());
    assert(seq![x][0] == x);
    assert(seq![x].contains(x));
    assert(first_occurrences(seq![x, x]) =~= seq![x]);
}

/// A stamped sequence holds the pair `(t, v)` exactly when it holds `v`.
pub proof fn lemma_stamped_contains<T>(vs: Seq<T>, t: u64, v: T)
    ensures
        stamped(vs, t).contains((t, v)) <==> vs.contains(v),
{
    if vs.contains(v) {
        let k = choose|k: int| 0 <= k < vs.len() && vs[k] == v;
        assert(stamped(vs, t)[k] == (t, v));
    }
    if stamped(vs, t).contains((t, v)) {
        let k = choose|k: int| 0 <= k < stamped(vs, t).len() && stamped(vs, t)[k] == (t, v);
        assert(vs[k] == v);
    }
}

/// A windowed set.
///
/// Elements are inserted together with a timestamp and stay visible while
/// their age is strictly below the window. Storage is deduplicated over the
/// whole `(timestamp, value)` pair; stale entries are purged at the head of
/// every observation (`len`, `iter`, `drain`), never on insertion. The view
/// of the collection is its stored sequence of `(timestamp, value)` pairs.
#[derive(Clone)]
pub struct WinSet<T> {
    origin: std::time::Instant,
    entries: Vec<(u64, T)>,
    window_nanos: u64,
}

impl<T> View for WinSet<T> {
    type V = Seq<(u64, T)>;

    closed spec fn view(&self) -> Seq<(u64, T)> {
        self.entries@
    }
}

impl<T> WinSet<T> {
    /// The window, in nanoseconds: entries of this age or more are evicted.
    pub closed spec fn window(&self) -> u64 {
        self.window_nanos
    }
}

impl<T: Eq + Hash> WinSet<T> {
    /// Well-formedness: wherever `==` on the element type agrees with
    /// logical equality, the storage holds no `(timestamp, value)` pair
    /// twice. Constructors establish this and every method preserves it.
    pub open spec fn wf(&self) -> bool {
        obeys_concrete_eq::<T>() ==> self@.no_duplicates()
    }

    /// Create an empty windowed set with the given window, measured in
    /// nanoseconds; the window is immutable thereafter.
    pub fn with_duration(window_nanos: u64) -> (c: Self)
        ensures
            c@ == Seq::<(u64, T)>::empty(),
            c.window() == window_nanos,
            c.wf(),
    {
        WinSet { origin: std::time::Instant::now(), entries: Vec::new(), window_nanos }
    }

    /// Whether `entries` holds the pair `(timestamp_nanos, *el)`, decided
    /// with the element type's `==`.
    fn contains_entry(entries: &Vec<(u64, T)>, timestamp_nanos: u64, el: &T) -> (r: bool)
        ensures
            obeys_concrete_eq::<T>() ==> r == entries@.contains((timestamp_nanos, *el)),
    {
        let mut i: usize = 0;
        while i < entries.len()
            invariant
                i <= entries@.len(),
                obeys_concrete_eq::<T>() ==> forall|k: int|
                    0 <= k < i ==> entries@[k] != (timestamp_nanos, *el),
            decreases entries@.len() - i,
        {
            if entries[i].0 == timestamp_nanos && entries[i].1 == *el {
                proof {
                    if obeys_concrete_eq::<T>() {
                        reveal(obeys_concrete_eq);
                        assert(entries@[i as int] == (timestamp_nanos, *el));
                    }
                }
                return true;
            }
            proof {
                if obeys_concrete_eq::<T>() {
                    reveal(obeys_concrete_eq);
                }
            }
            i += 1;
        }
        false
    }

    /// Insert `el` stamped with the given timestamp (nanoseconds since this
    /// collection's construction). The storage is unique over the whole
    /// pair: the pair is appended unless it is already present, so the same
    /// value inserted at two distinct instants is stored twice.
    pub fn insert_with_timestamp(&mut self, el: T, timestamp_nanos: u64)
        ensures
            final(self).window() == old(self).window(),
            final(self)@ == old(self)@ || final(self)@ == old(self)@.push((timestamp_nanos, el)),
            obeys_concrete_eq::<T>() ==> final(self)@ == (if old(self)@.contains(
                (timestamp_nanos, el),
            ) {
                old(self)@
            } else {
                old(self)@.push((timestamp_nanos, el))
            }),
            old(self).wf() ==> final(self).wf(),
    {
        let present = Self::contains_entry(&self.entries, timestamp_nanos, &el);
        if !present {
            self.entries.push((timestamp_nanos, el));
            proof {
                if obeys_concrete_eq::<T>() && old(self)@.no_duplicates() {
                    let s = self.entries@;
                    assert forall|i: int, j: int|
                        0 <= i < s.len() && 0 <= j < s.len() && i != j implies s[i] != s[j] by {
                        if i == s.len() - 1 {
                            assert(old(self)@[j] != (timestamp_nanos, el));
                        } else if j == s.len() - 1 {
                            assert(old(self)@[i] != (timestamp_nanos, el));
                        }
                    }
                }
            }
        }
    }

    /// Insert `el` stamped with the current monotonic time. The timestamp is
    /// whatever the clock read at the call; for that timestamp the insertion
    /// behaves exactly as `insert_with_timestamp`.
    pub fn insert(&mut self, el: T)
        ensures
            final(self).window() == old(self).window(),
            final(self)@ == old(self)@ || (exists|t: u64|
                final(self)@ == old(self)@.push((t, el))),
            obeys_concrete_eq::<T>() ==> exists|t: u64|
                final(self)@ == (if old(self)@.contains((t, el)) {
                    old(self)@
                } else {
                    old(self)@.push((t, el))
                }),
            old(self).wf() ==> final(self).wf(),
    {
        let t = clock::elapsed_nanos(&self.origin);
        self.insert_with_timestamp(el, t);
    }

    /// Build a windowed set from the given values, all stamped with the one
    /// instant of the call — zero nanoseconds before the collection's
    /// construction instant — and deduplicated, first occurrences kept.
    pub fn from_set(initial: Vec<T>, window_nanos: u64) -> (c: Self)
        ensures
            c.window() == window_nanos,
            c.wf(),
            c@.len() <= initial@.len(),
            forall|k: int|
                0 <= k < c@.len() ==> (#[trigger] c@[k]).0 == 0 && initial@.contains(c@[k].1),
            obeys_concrete_eq::<T>() ==> c@ == stamped(first_occurrences(initial@), 0),
    {
        let mut entries: Vec<(u64, T)> = Vec::new();
        let mut pending = initial;
        let ghost vs: Seq<T> = pending@;
        let ghost mut done: int = 0;
        proof {
            assert(vs.take(0) =~= Seq::<T>::empty());
            reveal_with_fuel(first_occurrences, 1);
            assert(stamped(first_occurrences(vs.take(0)), 0) =~= Seq::<(u64, T)>::empty());
        }
        while pending.len() > 0
            invariant
                0 <= done <= vs.len(),
                pending@ == vs.skip(done),
                entries@.len() <= done,
                forall|k: int|
                    0 <= k < entries@.len() ==> (#[trigger] entries@[k]).0 == 0 && vs.contains(
                        entries@[k].1,
                    ),
                obeys_concrete_eq::<T>() ==> entries@ == stamped(
                    first_occurrences(vs.take(done)),
                    0,
                ),
            decreases pending@.len(),
        {
            let v = pending.remove(0);
            proof {
                assert(v == vs[done]);
                assert(pending@ =~= vs.skip(done + 1));
            }
            let present = Self::contains_entry(&entries, 0, &v);
            proof {
                if obeys_concrete_eq::<T>() {
                    lemma_stamped_contains(first_occurrences(vs.take(done)), 0, v);
                    lemma_first_occurrences_elems(vs.take(done), v);
                }
                assert(vs.take(done + 1).drop_last() =~= vs.take(done));
                reveal_with_fuel(first_occurrences, 2);
            }
            if !present {
                entries.push((0, v));
                proof {
                    assert(vs.contains(vs[done]));
                    if obeys_concrete_eq::<T>() {
                        assert(entries@ =~= stamped(first_occurrences(vs.take(done + 1)), 0));
                    }
                }
            } else {
                proof {
                    if obeys_concrete_eq::<T>() {
                        assert(entries@ =~= stamped(first_occurrences(vs.take(done + 1)), 0));
                    }
                }
            }
            proof {
                done = done + 1;
            }
        }
        proof {
            assert(vs.take(done) =~= vs);
            if obeys_concrete_eq::<T>() {
                lemma_first_occurrences_unique(vs);
                let ws = first_occurrences(vs);
                let s = stamped(ws, 0);
                assert forall|i: int, j: int|
                    0 <= i < s.len() && 0 <= j < s.len() && i != j implies s[i] != s[j] by {
                    assert(s[i] == (0u64, ws[i]));
                    assert(s[j] == (0u64, ws[j]));
                }
            }
        }
        WinSet { origin: std::time::Instant::now(), entries, window_nanos }
    }

    /// The window this set was constructed with, in nanoseconds.
    pub fn duration(&self) -> (d: u64)
        ensures
            d == self.window(),
    {
        self.window_nanos
    }

    /// Run the eviction pass as of observation time `now_nanos` (nanoseconds
    /// since this collection's construction): exactly the entries whose age
    /// at `now_nanos` is strictly below the window survive, in stored order.
    pub fn purge_at(&mut self, now_nanos: u64)
        ensures
            final(self)@ == survivors_of(old(self)@, now_nanos, old(self).window()),
            final(self).window() == old(self).window(),
            old(self).wf() ==> final(self).wf(),
    {
        let window = self.window_nanos;
        window::retain_fresh(&mut self.entries, now_nanos, window);
        proof {
            if obeys_concrete_eq::<T>() && old(self)@.no_duplicates() {
                window::lemma_survivors_unique(old(self)@, now_nanos, old(self).window());
            }
        }
    }

    /// Run eviction at the current monotonic time, then return the count of
    /// surviving storage entries — a value stored at two instants counts
    /// twice. With a zero window the count is always zero.
    pub fn len(&mut self) -> (n: usize)
        ensures
            final(self).window() == old(self).window(),
            n == final(self)@.len(),
            exists|now: u64|
                final(self)@ == survivors_of(old(self)@, now, old(self).window()),
            old(self).window() == 0 ==> n == 0,
            old(self).wf() ==> final(self).wf(),
    {
        let now = clock::elapsed_nanos(&self.origin);
        self.purge_at(now);
        proof {
            if old(self).window() == 0 {
                window::lemma_zero_window_empty(old(self)@, now);
            }
        }
        self.entries.len()
    }
}

impl<T: Clone + Eq + Hash> WinSet<T> {
    /// Run eviction at the current monotonic time, then return one clone of
    /// each surviving storage entry's value — a value stored at two instants
    /// is yielded twice. With a zero window the result is always empty.
    pub fn iter(&mut self) -> (values: Vec<T>)
        ensures
            final(self).window() == old(self).window(),
            exists|now: u64|
                final(self)@ == survivors_of(old(self)@, now, old(self).window()),
            values@.len() == final(self)@.len(),
            forall|i: int|
                0 <= i < values@.len() ==> cloned::<T>(final(self)@[i].1, #[trigger] values@[i]),
            old(self).window() == 0 ==> values@.len() == 0,
            old(self).wf() ==> final(self).wf(),
    {
        let now = clock::elapsed_nanos(&self.origin);
        self.purge_at(now);
        proof {
            if old(self).window() == 0 {
                window::lemma_zero_window_empty(old(self)@, now);
            }
        }
        let mut values: Vec<T> = Vec::new();
        let mut i: usize = 0;
        while i < self.entries.len()
            invariant
                i <= self.entries@.len(),
                values@.len() == i,
                forall|k: int|
                    0 <= k < i ==> cloned::<T>(self.entries@[k].1, #[trigger] values@[k]),
            decreases self.entries@.len() - i,
        {
            values.push(self.entries[i].1.clone());
            i += 1;
        }
        values
    }

    /// Whether `values` holds `*x`, decided with the element type's `==`.
    fn values_contain(values: &Vec<T>, x: &T) -> (r: bool)
        ensures
            obeys_concrete_eq::<T>() ==> r == values@.contains(*x),
    {
        let mut i: usize = 0;
        while i < values.len()
            invariant
                i <= values@.len(),
                obeys_concrete_eq::<T>() ==> forall|k: int| 0 <= k < i ==> values@[k] != *x,
            decreases values@.len() - i,
        {
            if values[i] == *x {
                proof {
                    if obeys_concrete_eq::<T>() {
                        reveal(obeys_concrete_eq);
                        assert(values@[i as int] == *x);
                    }
                }
                return true;
            }
            proof {
                if obeys_concrete_eq::<T>() {
                    reveal(obeys_concrete_eq);
                }
            }
            i += 1;
        }
        false
    }

    /// Run eviction at the current monotonic time, then move the surviving
    /// values out, consuming the collection. Unlike `iter`, the survivors
    /// pass through a fresh deduplication: each value is yielded once, first
    /// occurrences kept, in stored order. With a zero window the result is
    /// always empty.
    pub fn drain(self) -> (values: Vec<T>)
        ensures
            self.window() == 0 ==> values@.len() == 0,
            exists|now: u64|
                #![trigger survivors_of(self@, now, self.window())]
                ({
                    let vs = values_of(survivors_of(self@, now, self.window()));
                    &&& values@.len() <= vs.len()
                    &&& (forall|i: int|
                        0 <= i < values@.len() ==> vs.contains(#[trigger] values@[i]))
                    &&& (obeys_concrete_eq::<T>() ==> values@ == first_occurrences(vs))
                }),
    {
        let mut this = self;
        let now = clock::elapsed_nanos(&this.origin);
        this.purge_at(now);
        proof {
            if self.window() == 0 {
                window::lemma_zero_window_empty(self@, now);
            }
        }
        let ghost survivors: Seq<(u64, T)> = this.entries@;
        let ghost vs: Seq<T> = values_of(survivors);
        let mut values: Vec<T> = Vec::new();
        let ghost mut done: int = 0;
        proof {
            assert(vs.take(0) =~= Seq::<T>::empty());
            reveal_with_fuel(first_occurrences, 1);
        }
        while this.entries.len() > 0
            invariant
                0 <= done <= survivors.len(),
                vs == values_of(survivors),
                this.entries@ == survivors.skip(done),
                values@.len() <= done,
                forall|i: int| 0 <= i < values@.len() ==> vs.contains(#[trigger] values@[i]),
                obeys_concrete_eq::<T>() ==> values@ == first_occurrences(vs.take(done)),
            decreases this.entries@.len(),
        {
            let e = this.entries.remove(0);
            proof {
                assert(e == survivors[done]);
                assert(vs[done] == survivors[done].1);
                assert(this.entries@ =~= survivors.skip(done + 1));
            }
            let present = Self::values_contain(&values, &e.1);
            proof {
                if obeys_concrete_eq::<T>() {
                    lemma_first_occurrences_elems(vs.take(done), e.1);
                }
                assert(vs.take(done + 1).drop_last() =~= vs.take(done));
                reveal_with_fuel(first_occurrences, 2);
            }
            if !present {
                values.push(e.1);
                proof {
                    assert(vs.contains(vs[done]));
                }
            }
            proof {
                done = done + 1;
            }
        }
        proof {
            assert(vs.take(done) =~= vs);
        }
        values
    }
}

} // verus!
