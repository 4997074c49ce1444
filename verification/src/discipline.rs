//! The aliasing discipline: at any point a buffer has any number of shared
//! borrows or one exclusive borrow, never both, and no borrow is live
//! outside the span of an owner of its buffer.

use vstd::prelude::*;
use crate::order::{ordered, precedes, sort_regions};
use crate::region::{Kind, Region};

verus! {

/// The rule that a set of regions breaks.
#[derive(Clone, Copy, Debug, PartialEq, Eq)]
pub enum Violation {
    /// Two exclusive borrows of one buffer are live together.
    ExclusiveOverlap,
    /// An exclusive and a shared borrow of one buffer are live together.
    SharedExclusiveOverlap,
    /// A borrow is live at a point where no owner of its buffer covers it.
    DanglingBorrow,
}

/// The two families of violations.
#[derive(Clone, Copy, Debug, PartialEq, Eq)]
pub enum ErrorKind {
    /// Borrows of one buffer that must not be live together are.
    AliasingViolation,
    /// A borrow outlives what it borrows.
    DanglingReference,
}

impl Violation {
    /// The family that the violation belongs to: the two overlaps are
    /// aliasing violations, a dangling borrow is a dangling reference.
    pub open spec fn spec_kind(&self) -> ErrorKind {
        match self {
            Violation::ExclusiveOverlap => ErrorKind::AliasingViolation,
            Violation::SharedExclusiveOverlap => ErrorKind::AliasingViolation,
            Violation::DanglingBorrow => ErrorKind::DanglingReference,
        }
    }

    /// The family that the violation belongs to.
    #[verifier::when_used_as_spec(spec_kind)]
    pub fn kind(&self) -> (kind: ErrorKind)
        ensures
            kind == self.spec_kind(),
    {
        match self {
            Violation::ExclusiveOverlap => ErrorKind::AliasingViolation,
            Violation::SharedExclusiveOverlap => ErrorKind::AliasingViolation,
            Violation::DanglingBorrow => ErrorKind::DanglingReference,
        }
    }
}

/// Whether two distinct regions are exclusive borrows of one buffer that
/// are live together.
pub open spec fn has_exclusive_clash(regions: Seq<Region>) -> bool {
    exists|i: int, j: int|
        0 <= i < j < regions.len() && #[trigger] regions[i].exclusive_clash(regions[j])
}

/// Whether an exclusive and a shared borrow of one buffer are live together.
pub open spec fn has_mixed_clash(regions: Seq<Region>) -> bool {
    exists|i: int, j: int|
        0 <= i < regions.len() && 0 <= j < regions.len() && #[trigger] regions[i].mixed_clash(
            regions[j],
        )
}

/// Whether some owner among the regions owns the borrow's buffer and is live
/// for the whole of the borrow's span.
pub open spec fn anchored(regions: Seq<Region>, borrow: Region) -> bool {
    exists|o: int| 0 <= o < regions.len() && #[trigger] regions[o].anchors(borrow)
}

/// Whether some borrow among the regions has no owner that anchors it.
pub open spec fn has_dangling(regions: Seq<Region>) -> bool {
    exists|i: int|
        0 <= i < regions.len() && (#[trigger] regions[i]).is_borrow() && !anchored(
            regions,
            regions[i],
        )
}

/// What the discipline says of a set of regions: it is accepted when it
/// breaks no rule, and else rejected with the first rule that it breaks, in
/// the order in which `Violation` lists them. Owners are taken as given: a
/// buffer may have several, one after the other as it changes hands, and a
/// borrow needs one of them to cover it.
pub open spec fn verdict(regions: Seq<Region>) -> Result<(), Violation> {
    if has_exclusive_clash(regions) {
        Err(Violation::ExclusiveOverlap)
    } else if has_mixed_clash(regions) {
        Err(Violation::SharedExclusiveOverlap)
    } else if has_dangling(regions) {
        Err(Violation::DanglingBorrow)
    } else {
        Ok(())
    }
}

/// Whether two of the first `k` regions form an exclusive clash.
spec fn exclusive_clash_below(regions: Seq<Region>, k: int) -> bool {
    exists|i: int, j: int| 0 <= i < j < k && #[trigger] regions[i].exclusive_clash(regions[j])
}

/// Whether two of the first `k` regions form a mixed clash.
spec fn mixed_clash_below(regions: Seq<Region>, k: int) -> bool {
    exists|i: int, j: int|
        0 <= i < k && 0 <= j < k && #[trigger] regions[i].mixed_clash(regions[j])
}

/// Whether `top` is the latest end among the first `k` regions that have
/// the given kind and buffer: nothing when there is no such region.
spec fn is_top(regions: Seq<Region>, k: int, kind: Kind, buffer: u64, top: Option<u64>) -> bool {
    match top {
        None => forall|p: int|
            0 <= p < k ==> !((#[trigger] regions[p]).kind == kind && regions[p].buffer == buffer),
        Some(t) => {
            &&& exists|p: int|
                0 <= p < k && (#[trigger] regions[p]).kind == kind && regions[p].buffer == buffer
                    && regions[p].span@.end == t
            &&& forall|p: int|
                0 <= p < k && (#[trigger] regions[p]).kind == kind && regions[p].buffer
                    == buffer ==> regions[p].span@.end <= t
        },
    }
}

/// The later of a recorded end, if any, and a new one.
spec fn raised(top: Option<u64>, end: u64) -> Option<u64> {
    match top {
        Some(t) => if t > end {
            Some(t)
        } else {
            Some(end)
        },
        None => Some(end),
    }
}

/// Whether a region that starts at `start` begins no later than the
/// recorded end, if there is one.
spec fn reached(top: Option<u64>, start: u64) -> bool {
    match top {
        Some(t) => start <= t,
        None => false,
    }
}

/// The later of a recorded end, if any, and a new one.
fn raise(top: Option<u64>, end: u64) -> (after: Option<u64>)
    ensures
        after == raised(top, end),
{
    match top {
        Some(t) => if t > end {
            Some(t)
        } else {
            Some(end)
        },
        None => Some(end),
    }
}

/// Whether a borrow that starts at `start` begins while a region that ends
/// at `top` is still live.
fn reaches(top: Option<u64>, start: u64) -> (held: bool)
    ensures
        held == reached(top, start),
{
    match top {
        Some(t) => start <= t,
        None => false,
    }
}

/// Walks ordered regions once and tells whether they hold an exclusive
/// clash and whether they hold a mixed clash. For each buffer the walk
/// remembers the latest end of the exclusive and of the shared borrows met
/// so far; a borrow that starts no later than such an end is live together
/// with the borrow that ends there.
fn sweep(sorted: &Vec<Region>) -> (found: (bool, bool))
    requires
        ordered(sorted@),
    ensures
        found.0 == has_exclusive_clash(sorted@),
        found.1 == has_mixed_clash(sorted@),
{
    let mut exclusive_found = false;
    let mut mixed_found = false;
    let mut group: u64 = 0;
    let mut exclusive_top: Option<u64> = None;
    let mut shared_top: Option<u64> = None;
    let mut k: usize = 0;
    while k < sorted.len()
        invariant
            k <= sorted.len(),
            ordered(sorted@),
            exclusive_found == exclusive_clash_below(sorted@, k as int),
            mixed_found == mixed_clash_below(sorted@, k as int),
            k > 0 ==> group == sorted[k - 1].buffer,
            is_top(sorted@, k as int, Kind::Exclusive, group, exclusive_top),
            is_top(sorted@, k as int, Kind::Shared, group, shared_top),
        decreases sorted.len() - k,
    {
        let region = sorted[k];
        let start: u64 = region.span.start();
        let end: u64 = region.span.end();
        if k > 0 && group != region.buffer {
            exclusive_top = None;
            shared_top = None;
        }
        proof {
            // Regions are ordered by buffer: once the buffer changes, none
            // of the earlier regions has the new one.
            assert forall|p: int| 0 <= p < k && group != region.buffer implies
                (#[trigger] sorted[p]).buffer != region.buffer by {
                assert(precedes(sorted[k - 1], sorted[k as int]));
                if p < k - 1 {
                    assert(precedes(sorted[p], sorted[k - 1]));
                }
            }
            // Within one buffer they are ordered by start.
            assert forall|p: int|
                0 <= p < k && (#[trigger] sorted[p]).buffer == region.buffer implies
                sorted[p].span@.start <= start by {
                assert(precedes(sorted[p], sorted[k as int]));
            }
        }
        group = region.buffer;
        let ghost exclusive_before = exclusive_found;
        let ghost mixed_before = mixed_found;
        let ghost exclusive_top_before = exclusive_top;
        let ghost shared_top_before = shared_top;
        match region.kind {
            Kind::Owner => {},
            Kind::Exclusive => {
                if reaches(exclusive_top, start) {
                    exclusive_found = true;
                }
                if reaches(shared_top, start) {
                    mixed_found = true;
                }
                exclusive_top = raise(exclusive_top, end);
            },
            Kind::Shared => {
                if reaches(exclusive_top, start) {
                    mixed_found = true;
                }
                shared_top = raise(shared_top, end);
            },
        }
        proof {
            lemma_step_exclusive(
                sorted@,
                k as int,
                start,
                end,
                exclusive_top_before,
                exclusive_before,
                exclusive_found,
            );
            lemma_step_mixed(
                sorted@,
                k as int,
                start,
                end,
                exclusive_top_before,
                shared_top_before,
                mixed_before,
                mixed_found,
            );
        }
        k += 1;
    }
    (exclusive_found, mixed_found)
}

/// What the walk needs to know of the region at index `k` and of those
/// before it: the earlier regions of its buffer start no later than it, and
/// it does not end before it starts.
spec fn step_ready(sorted: Seq<Region>, k: int, start: u64, end: u64) -> bool {
    &&& 0 <= k < sorted.len()
    &&& sorted[k].span@.start == start
    &&& sorted[k].span@.end == end
    &&& start <= end
    &&& forall|p: int|
        0 <= p < k && (#[trigger] sorted[p]).buffer == sorted[k].buffer ==> sorted[p].span@.start
            <= start
}

/// One step of the walk keeps what it found of exclusive clashes exact.
proof fn lemma_step_exclusive(
    sorted: Seq<Region>,
    k: int,
    start: u64,
    end: u64,
    top: Option<u64>,
    before: bool,
    after: bool,
)
    requires
        step_ready(sorted, k, start, end),
        is_top(sorted, k, Kind::Exclusive, sorted[k].buffer, top),
        before == exclusive_clash_below(sorted, k),
        after == (before || (sorted[k].kind is Exclusive && reached(top, start))),
    ensures
        after == exclusive_clash_below(sorted, k + 1),
{
    if after && !before {
        // The exclusive borrow that ends latest is live where this one starts.
        let latest = choose|p: int|
            0 <= p < k && (#[trigger] sorted[p]).kind == Kind::Exclusive && sorted[p].buffer
                == sorted[k].buffer && sorted[p].span@.end == top->0;
        assert(sorted[latest].exclusive_clash(sorted[k]));
    }
}

/// One step of the walk keeps what it found of mixed clashes exact.
proof fn lemma_step_mixed(
    sorted: Seq<Region>,
    k: int,
    start: u64,
    end: u64,
    exclusive_top: Option<u64>,
    shared_top: Option<u64>,
    before: bool,
    after: bool,
)
    requires
        step_ready(sorted, k, start, end),
        is_top(sorted, k, Kind::Exclusive, sorted[k].buffer, exclusive_top),
        is_top(sorted, k, Kind::Shared, sorted[k].buffer, shared_top),
        before == mixed_clash_below(sorted, k),
        after == (before || (sorted[k].kind is Exclusive && reached(shared_top, start))
            || (sorted[k].kind is Shared && reached(exclusive_top, start))),
    ensures
        after == mixed_clash_below(sorted, k + 1),
{
    if after && !before {
        // The borrow of the other kind that ends latest is live where this
        // one starts.
        if sorted[k].kind is Exclusive {
            let latest = choose|p: int|
                0 <= p < k && (#[trigger] sorted[p]).kind == Kind::Shared && sorted[p].buffer
                    == sorted[k].buffer && sorted[p].span@.end == shared_top->0;
            assert(sorted[k].mixed_clash(sorted[latest]));
        } else {
            let latest = choose|p: int|
                0 <= p < k && (#[trigger] sorted[p]).kind == Kind::Exclusive && sorted[p].buffer
                    == sorted[k].buffer && sorted[p].span@.end == exclusive_top->0;
            assert(sorted[latest].mixed_clash(sorted[k]));
        }
    }
}

/// Two sequences that hold the same regions equally often hold any two
/// regions of one at two places of the other.
proof fn lemma_pair_in_permutation(a: Seq<Region>, b: Seq<Region>, i: int, j: int) -> (at: (
    int,
    int,
))
    requires
        a.to_multiset() == b.to_multiset(),
        0 <= i < a.len(),
        0 <= j < a.len(),
        i != j,
    ensures
        0 <= at.0 < b.len(),
        0 <= at.1 < b.len(),
        at.0 != at.1,
        b[at.0] == a[i],
        b[at.1] == a[j],
{
    broadcast use vstd::seq_lib::group_to_multiset_ensures;

    // The first region has a place in `b`.
    assert(b.to_multiset().count(a[i]) > 0);
    let p = choose|p: int| 0 <= p < b.len() && b[p] == a[i];
    // With the first region taken out of both, the second still has one.
    let rest_a = a.remove(i);
    let rest_b = b.remove(p);
    assert(rest_a.to_multiset() =~= rest_b.to_multiset());
    let moved = if j < i {
        j
    } else {
        j - 1
    };
    assert(rest_a[moved] == a[j]);
    assert(rest_b.to_multiset().count(a[j]) > 0);
    let r = choose|r: int| 0 <= r < rest_b.len() && rest_b[r] == a[j];
    let q = if r < p {
        r
    } else {
        r + 1
    };
    (p, q)
}

/// The clashes of a sequence are clashes of each of its permutations.
proof fn lemma_clashes_carry_over(a: Seq<Region>, b: Seq<Region>)
    requires
        a.to_multiset() == b.to_multiset(),
    ensures
        has_exclusive_clash(a) ==> has_exclusive_clash(b),
        has_mixed_clash(a) ==> has_mixed_clash(b),
{
    if has_exclusive_clash(a) {
        let (i, j) = choose|i: int, j: int|
            0 <= i < j < a.len() && #[trigger] a[i].exclusive_clash(a[j]);
        let (p, q) = lemma_pair_in_permutation(a, b, i, j);
        if p < q {
            assert(b[p].exclusive_clash(b[q]));
        } else {
            assert(b[q].exclusive_clash(b[p]));
        }
    }
    if has_mixed_clash(a) {
        let (i, j) = choose|i: int, j: int|
            0 <= i < a.len() && 0 <= j < a.len() && #[trigger] a[i].mixed_clash(a[j]);
        let (p, q) = lemma_pair_in_permutation(a, b, i, j);
        assert(b[p].mixed_clash(b[q]));
    }
}

/// A borrow that dangles in a sequence dangles in each of its permutations.
proof fn lemma_dangling_carries_over(a: Seq<Region>, b: Seq<Region>)
    requires
        a.to_multiset() == b.to_multiset(),
    ensures
        has_dangling(a) ==> has_dangling(b),
{
    broadcast use vstd::seq_lib::group_to_multiset_ensures;

    if has_dangling(a) {
        let i = choose|i: int|
            0 <= i < a.len() && (#[trigger] a[i]).is_borrow() && !anchored(a, a[i]);
        let borrow = a[i];
        assert(b.to_multiset().count(borrow) > 0);
        let p = choose|p: int| 0 <= p < b.len() && b[p] == borrow;
        if anchored(b, borrow) {
            // An owner that anchors the borrow in `b` would do so in `a`.
            let o = choose|o: int| 0 <= o < b.len() && #[trigger] b[o].anchors(borrow);
            assert(a.to_multiset().count(b[o]) > 0);
            let at = choose|at: int| 0 <= at < a.len() && a[at] == b[o];
            assert(a[at].anchors(borrow));
        }
        assert(b[p].is_borrow() && !anchored(b, b[p]));
    }
}

/// Whether a set of regions holds an exclusive clash, a mixed clash or a
/// dangling borrow does not depend on the order of the regions, and so the
/// verdict does not either.
pub proof fn lemma_order_is_irrelevant(a: Seq<Region>, b: Seq<Region>)
    requires
        a.to_multiset() == b.to_multiset(),
    ensures
        has_exclusive_clash(a) == has_exclusive_clash(b),
        has_mixed_clash(a) == has_mixed_clash(b),
        has_dangling(a) == has_dangling(b),
        verdict(a) == verdict(b),
{
    lemma_clashes_carry_over(a, b);
    lemma_clashes_carry_over(b, a);
    lemma_dangling_carries_over(a, b);
    lemma_dangling_carries_over(b, a);
}

/// Whether some owner among the regions anchors the borrow.
fn is_anchored(regions: &Vec<Region>, borrow: &Region) -> (held: bool)
    ensures
        held == anchored(regions@, *borrow),
{
    let mut o: usize = 0;
    while o < regions.len()
        invariant
            o <= regions.len(),
            forall|x: int| 0 <= x < o ==> !(#[trigger] regions[x]).anchors(*borrow),
        decreases regions.len() - o,
    {
        let candidate = &regions[o];
        if matches!(candidate.kind, Kind::Owner) && candidate.buffer == borrow.buffer
            && candidate.span.covers(&borrow.span) {
            assert(regions[o as int].anchors(*borrow));
            return true;
        }
        o += 1;
    }
    false
}

/// Whether some borrow among the regions has no owner that anchors it.
fn finds_dangling(regions: &Vec<Region>) -> (found: bool)
    ensures
        found == has_dangling(regions@),
{
    let mut i: usize = 0;
    while i < regions.len()
        invariant
            i <= regions.len(),
            forall|x: int|
                0 <= x < i ==> !((#[trigger] regions[x]).is_borrow() && !anchored(
                    regions@,
                    regions[x],
                )),
        decreases regions.len() - i,
    {
        let region = &regions[i];
        if !matches!(region.kind, Kind::Owner) && !is_anchored(regions, region) {
            return true;
        }
        i += 1;
    }
    false
}

/// Decides whether the regions keep the aliasing discipline. The regions
/// are ordered by buffer and start and walked once for borrows that are live
/// together; then each borrow is held against the owners of its buffer. The
/// answer is `Ok` when no rule is broken, and else the first broken rule.
pub fn check(regions: &Vec<Region>) -> (outcome: Result<(), Violation>)
    ensures
        outcome == verdict(regions@),
{
    let sorted = sort_regions(regions);
    let (exclusive_found, mixed_found) = sweep(&sorted);
    proof {
        lemma_order_is_irrelevant(sorted@, regions@);
    }
    if exclusive_found {
        Err(Violation::ExclusiveOverlap)
    } else if mixed_found {
        Err(Violation::SharedExclusiveOverlap)
    } else if finds_dangling(regions) {
        Err(Violation::DanglingBorrow)
    } else {
        Ok(())
    }
}

} // verus!
