//! Bounded metric history: a FIFO of the most recent points.

use vstd::prelude::*;

use std::collections::VecDeque;

verus! {

/// What pushing `value` does to the points `s` of a series holding at most `capacity`.
pub open spec fn pushed<T>(s: Seq<T>, value: T, capacity: nat) -> Seq<T> {
    if s.len() >= capacity && s.len() > 0 {
        s.drop_first().push(value)
    } else {
        s.push(value)
    }
}

/// The last `capacity` values of `history`, oldest first.
pub open spec fn window<T>(history: Seq<T>, capacity: nat) -> Seq<T> {
    if history.len() <= capacity {
        history
    } else {
        history.subrange(history.len() - capacity, history.len() as int)
    }
}

/// The points of a series of the given capacity after pushing `history` into an empty one.
pub open spec fn replay<T>(history: Seq<T>, capacity: nat) -> Seq<T>
    decreases history.len(),
{
    if history.len() == 0 {
        seq![]
    } else {
        pushed(replay(history.drop_last(), capacity), history.last(), capacity)
    }
}

#[derive(Debug)]
pub struct MetricSeries<T> {
    capacity: usize,
    points: VecDeque<T>,
}

impl<T> View for MetricSeries<T> {
    type V = Seq<T>;

    closed spec fn view(&self) -> Seq<T> {
        self.points@
    }
}

impl<T> MetricSeries<T> {
    #[verifier::type_invariant]
    spec fn bounded(self) -> bool {
        1 <= self.capacity && self.points@.len() <= self.capacity
    }

    /// The most points the series keeps.
    pub closed spec fn max_len(self) -> nat {
        self.capacity as nat
    }
}

impl<T: Copy> MetricSeries<T> {
    /// An empty series keeping at most `capacity` points (at least one).
    pub fn new(capacity: usize) -> (series: Self)
        ensures
            series@ == Seq::<T>::empty(),
            series.max_len() == if capacity == 0 {
                1
            } else {
                capacity as nat
            },
    {
        let capacity = if capacity == 0 {
            1
        } else {
            capacity
        };
        MetricSeries { capacity, points: VecDeque::new() }
    }

    /// Appends `value`, dropping the oldest point when the series is full.
    pub fn push(&mut self, value: T)
        ensures
            final(self)@ == pushed(old(self)@, value, old(self).max_len()),
            final(self).max_len() == old(self).max_len(),
            final(self)@.len() <= final(self).max_len(),
    {
        proof {
            use_type_invariant(&*self);
        }
        let mut points: VecDeque<T> = VecDeque::new();
        std::mem::swap(&mut points, &mut self.points);
        if points.len() == self.capacity {
            let _ = points.pop_front();
        }
        points.push_back(value);
        self.points = points;
    }

    /// The points, oldest first.
    pub fn values(&self) -> (v: Vec<T>)
        ensures
            v@ == self@,
    {
        let n = self.points.len();
        let mut v: Vec<T> = Vec::new();
        let mut i: usize = 0;
        while i < n
            invariant
                i <= n == self.points@.len(),
                v@ == self.points@.take(i as int),
            decreases n - i,
        {
            v.push(self.points[i]);
            i = i + 1;
            assert(v@ =~= self.points@.take(i as int));
        }
        assert(self.points@.take(n as int) =~= self.points@);
        v
    }

    pub fn len(&self) -> (n: usize)
        ensures
            n == self@.len(),
            1 <= self.max_len(),
            n <= self.max_len(),
    {
        proof {
            use_type_invariant(self);
        }
        self.points.len()
    }

    pub fn is_empty(&self) -> (b: bool)
        ensures
            b == (self@.len() == 0),
    {
        self.points.len() == 0
    }
}

impl<T: Copy> Clone for MetricSeries<T> {
    fn clone(&self) -> (c: Self)
        ensures
            c.max_len() == self.max_len(),
            c@ == self@,
    {
        proof {
            use_type_invariant(self);
        }
        let n = self.points.len();
        let mut points: VecDeque<T> = VecDeque::new();
        let mut i: usize = 0;
        while i < n
            invariant
                i <= n == self.points@.len(),
                points@ == self.points@.take(i as int),
            decreases n - i,
        {
            points.push_back(self.points[i]);
            i = i + 1;
            assert(points@ =~= self.points@.take(i as int));
        }
        assert(self.points@.take(n as int) =~= self.points@);
        MetricSeries { capacity: self.capacity, points }
    }
}

/// Pushing into a series that holds the last `capacity` values of a history
/// leaves it holding the last `capacity` values of the extended history.
pub proof fn law_push_keeps_window<T>(history: Seq<T>, value: T, capacity: nat)
    requires
        capacity >= 1,
    ensures
        pushed(window(history, capacity), value, capacity) == window(history.push(value), capacity),
{
    let h = history.push(value);
    if history.len() < capacity {
        assert(window(h, capacity) =~= h);
    } else {
        let w = window(history, capacity);
        assert(w.len() == capacity);
        assert(w.drop_first().push(value) =~= h.subrange(h.len() - capacity, h.len() as int));
    }
}

/// A series only ever holds the last `capacity` values pushed into it, in the
/// order they were pushed: eviction is first-in first-out, never by value.
pub proof fn law_series_keeps_latest_points<T>(history: Seq<T>, capacity: nat)
    requires
        capacity >= 1,
    ensures
        replay(history, capacity) == window(history, capacity),
        replay(history, capacity).len() <= capacity,
    decreases history.len(),
{
    if history.len() > 0 {
        law_series_keeps_latest_points(history.drop_last(), capacity);
        law_push_keeps_window(history.drop_last(), history.last(), capacity);
        assert(history.drop_last().push(history.last()) =~= history);
    }
}

} // verus!
