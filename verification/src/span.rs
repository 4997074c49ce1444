//! Liveness spans: the stretch of program points over which a binding is
//! live, from the point that creates it to the point of its last use.

use vstd::prelude::*;

verus! {

/// The mathematical model of a span: the closed interval of program points
/// from `start` to `end`, both included.
pub struct Interval {
    pub start: int,
    pub end: int,
}

impl Interval {
    /// An interval is valid when it does not end before it starts.
    pub open spec fn valid(self) -> bool {
        self.start <= self.end
    }

    /// Whether the program point `at` lies in the interval.
    pub open spec fn contains(self, at: int) -> bool {
        self.start <= at <= self.end
    }

    /// Whether the two intervals are live together at some point.
    pub open spec fn overlaps(self, other: Interval) -> bool {
        self.start <= other.end && other.start <= self.end
    }

    /// Whether `other` lies entirely inside this interval.
    pub open spec fn covers(self, other: Interval) -> bool {
        self.start <= other.start && other.end <= self.end
    }
}

/// The liveness span of one binding. It starts at the point that creates
/// the binding and ends at the point of its last use, so it never ends
/// before it starts.
#[derive(Clone, Copy, Debug, PartialEq, Eq)]
pub struct Span {
    start: u64,
    end: u64,
}

impl View for Span {
    type V = Interval;

    closed spec fn view(&self) -> Interval {
        Interval { start: self.start as int, end: self.end as int }
    }
}

impl Span {
    #[verifier::type_invariant]
    spec fn ordered(self) -> bool {
        self.start <= self.end
    }

    /// Makes the span from `start` to `end`, or nothing when `end` comes
    /// before `start`.
    pub fn new(start: u64, end: u64) -> (made: Option<Span>)
        ensures
            match made {
                Some(span) => start <= end && span@.start == start && span@.end == end,
                None => end < start,
            },
    {
        if start <= end {
            Some(Span { start, end })
        } else {
            None
        }
    }

    /// Computes the span of a binding by last-use analysis: it starts where
    /// the binding is created and ends at the latest point that uses it,
    /// or where it starts when no point at or after its creation uses it.
    pub fn from_uses(created: u64, uses: &Vec<u64>) -> (span: Span)
        ensures
            span@.start == created,
            span@.end >= created,
            forall|k: int| 0 <= k < uses.len() ==> uses[k] <= span@.end,
            span@.end == created || exists|k: int| 0 <= k < uses.len() && uses[k] == span@.end,
    {
        let mut last: u64 = created;
        let mut i: usize = 0;
        while i < uses.len()
            invariant
                i <= uses.len(),
                last >= created,
                forall|k: int| 0 <= k < i ==> uses[k] <= last,
                last == created || exists|k: int| 0 <= k < i && uses[k] == last,
            decreases uses.len() - i,
        {
            if uses[i] > last {
                last = uses[i];
            }
            i += 1;
        }
        Span { start: created, end: last }
    }

    /// The point that creates the binding.
    pub fn start(&self) -> (point: u64)
        ensures
            point == self@.start,
            self@.valid(),
    {
        proof {
            use_type_invariant(self);
        }
        self.start
    }

    /// The point of the binding's last use.
    pub fn end(&self) -> (point: u64)
        ensures
            point == self@.end,
            self@.valid(),
    {
        proof {
            use_type_invariant(self);
        }
        self.end
    }

    /// Whether the two spans are live together at some point.
    pub fn overlaps(&self, other: &Span) -> (held: bool)
        ensures
            held == self@.overlaps(other@),
    {
        self.start <= other.end && other.start <= self.end
    }

    /// Whether `other` lies entirely inside this span.
    pub fn covers(&self, other: &Span) -> (held: bool)
        ensures
            held == self@.covers(other@),
    {
        self.start <= other.start && other.end <= self.end
    }
}

} // verus!
