//! Time-windowed collections: every stored element carries a timestamp, and
//! entries older than a fixed window are evicted lazily at the head of every
//! observation — never on insertion.
//!
//! [`WinVec`] is a windowed append-only sequence (duplicates allowed,
//! insertion order kept); [`WinSet`](winset::WinSet) is a windowed set whose
//! storage is unique over `(timestamp, value)` pairs. Timestamps are
//! nanoseconds of monotonic time since the collection's construction, read
//! from the process monotonic clock or supplied by the caller.

pub mod clock;
pub mod window;
pub mod winset;

use vstd::prelude::*;

use crate::window::{survivors_of, values_of};

verus! {

/// A windowed append-only sequence.
///
/// Elements are pushed together with a timestamp and stay visible while their
/// age is strictly below the window. Stale entries are purged at the head of
/// every observation (`len`, `iter`, `drain`), never on insertion. The view
/// of the collection is its stored sequence of `(timestamp, value)` pairs.
pub struct WinVec<T> {
    origin: std::time::Instant,
    entries: Vec<(u64, T)>,
    window_nanos: u64,
}

impl<T> View for WinVec<T> {
    type V = Seq<(u64, T)>;

    closed spec fn view(&self) -> Seq<(u64, T)> {
        self.entries@
    }
}

impl<T> WinVec<T> {
    /// The window, in nanoseconds: entries of this age or more are evicted.
    pub closed spec fn window(&self) -> u64 {
        self.window_nanos
    }

    /// Create an empty windowed sequence with the given window, measured in
    /// nanoseconds; the window is immutable thereafter.
    pub fn with_duration(window_nanos: u64) -> (c: Self)
        ensures
            c@ == Seq::<(u64, T)>::empty(),
            c.window() == window_nanos,
    {
        WinVec { origin: std::time::Instant::now(), entries: Vec::new(), window_nanos }
    }

    /// Append `el` stamped with the given timestamp (nanoseconds since this
    /// collection's construction). A timestamp already outside the window is
    /// accepted; the entry is simply evicted by the next observation.
    pub fn push_with_timestamp(&mut self, el: T, timestamp_nanos: u64)
        ensures
            final(self)@ == old(self)@.push((timestamp_nanos, el)),
            final(self).window() == old(self).window(),
    {
        self.entries.push((timestamp_nanos, el));
    }

    /// Append `el` stamped with the current monotonic time. The timestamp is
    /// whatever the clock read at the call; everything else is exact.
    pub fn push(&mut self, el: T)
        ensures
            final(self).window() == old(self).window(),
            final(self)@.len() == old(self)@.len() + 1,
            final(self)@.drop_last() == old(self)@,
            final(self)@.last().1 == el,
            exists|t: u64| final(self)@ == old(self)@.push((t, el)),
    {
        let t = clock::elapsed_nanos(&self.origin);
        self.entries.push((t, el));
        proof {
            assert(self.entries@ == old(self)@.push((t, el)));
            assert(self.entries@.drop_last() =~= old(self)@);
        }
    }

    /// Run the eviction pass as of observation time `now_nanos` (nanoseconds
    /// since this collection's construction): exactly the entries whose age
    /// at `now_nanos` is strictly below the window survive, in order.
    pub fn purge_at(&mut self, now_nanos: u64)
        ensures
            final(self)@ == survivors_of(old(self)@, now_nanos, old(self).window()),
            final(self).window() == old(self).window(),
    {
        let window = self.window_nanos;
        window::retain_fresh(&mut self.entries, now_nanos, window);
    }

    /// Run eviction at the current monotonic time, then return the count of
    /// surviving entries. With a zero window the count is always zero.
    pub fn len(&mut self) -> (n: usize)
        ensures
            final(self).window() == old(self).window(),
            n == final(self)@.len(),
            exists|now: u64|
                final(self)@ == survivors_of(old(self)@, now, old(self).window()),
            old(self).window() == 0 ==> n == 0,
    {
        let now = clock::elapsed_nanos(&self.origin);
        self.purge_at(now);
        proof {
            if old(self).window() == 0 {
                window::lemma_zero_window_empty(old(self)@, now);
            }
        }
        self.entries.len()
    }
}

impl<T: Clone> WinVec<T> {
    /// Run eviction at the current monotonic time, then return one clone of
    /// each surviving value, in insertion order. With a zero window the
    /// result is always empty.
    pub fn iter(&mut self) -> (values: Vec<T>)
        ensures
            final(self).window() == old(self).window(),
            exists|now: u64|
                final(self)@ == survivors_of(old(self)@, now, old(self).window()),
            values@.len() == final(self)@.len(),
            forall|i: int|
                0 <= i < values@.len() ==> cloned::<T>(final(self)@[i].1, #[trigger] values@[i]),
            old(self).window() == 0 ==> values@.len() == 0,
    {
        let now = clock::elapsed_nanos(&self.origin);
        self.purge_at(now);
        proof {
            if old(self).window() == 0 {
                window::lemma_zero_window_empty(old(self)@, now);
            }
        }
        let mut values: Vec<T> = Vec::new();
        let mut i: usize = 0;
        while i < self.entries.len()
            invariant
                i <= self.entries@.len(),
                values@.len() == i,
                forall|k: int|
                    0 <= k < i ==> cloned::<T>(self.entries@[k].1, #[trigger] values@[k]),
            decreases self.entries@.len() - i,
        {
            values.push(self.entries[i].1.clone());
            i += 1;
        }
        values
    }

    /// Run eviction at the current monotonic time, then move the surviving
    /// values out in insertion order, consuming the collection. With a zero
    /// window the result is always empty.
    pub fn drain(self) -> (values: Vec<T>)
        ensures
            exists|now: u64|
                values@ == values_of(survivors_of(self@, now, self.window())),
            self.window() == 0 ==> values@.len() == 0,
    {
        let mut this = self;
        let now = clock::elapsed_nanos(&this.origin);
        this.purge_at(now);
        proof {
            if self.window() == 0 {
                window::lemma_zero_window_empty(self@, now);
            }
        }
        let ghost survivors: Seq<(u64, T)> = this.entries@;
        let mut values: Vec<T> = Vec::new();
        while this.entries.len() > 0
            invariant
                values@.len() + this.entries@.len() == survivors.len(),
                this.entries@ == survivors.skip(values@.len() as int),
                forall|k: int| 0 <= k < values@.len() ==> #[trigger] values@[k] == survivors[k].1,
            decreases this.entries@.len(),
        {
            let e = this.entries.remove(0);
            values.push(e.1);
            proof {
                assert(this.entries@ =~= survivors.skip(values@.len() as int));
            }
        }
        proof {
            assert(values@ =~= values_of(survivors));
        }
        values
    }
}

} // verus!
