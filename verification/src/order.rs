//! Ordering of regions by buffer and, within one buffer, by the point at
//! which they start. In this order the regions of each buffer stand side by
//! side, the earlier one first.

use vstd::prelude::*;
use vstd::seq_lib::lemma_multiset_commutative;
use crate::region::Region;

verus! {

/// Whether `a` may stand before `b`: its buffer is the smaller one, or the
/// buffers agree and `a` does not start after `b`.
pub open spec fn precedes(a: Region, b: Region) -> bool {
    a.buffer < b.buffer || (a.buffer == b.buffer && a.span@.start <= b.span@.start)
}

/// Whether every region of the sequence may stand before all that follow.
pub open spec fn ordered(regions: Seq<Region>) -> bool {
    forall|i: int, j: int| 0 <= i < j < regions.len() ==> precedes(regions[i], regions[j])
}

/// Whether `a` may stand before `b`.
fn comes_first(a: &Region, b: &Region) -> (first: bool)
    ensures
        first == precedes(*a, *b),
        !first ==> precedes(*b, *a),
{
    a.buffer < b.buffer || (a.buffer == b.buffer && a.span.start() <= b.span.start())
}

/// Merges two ordered runs into one.
fn merge(left: &Vec<Region>, right: &Vec<Region>) -> (merged: Vec<Region>)
    requires
        ordered(left@),
        ordered(right@),
    ensures
        ordered(merged@),
        merged@.to_multiset() == left@.to_multiset().add(right@.to_multiset()),
{
    let mut merged: Vec<Region> = Vec::new();
    let mut i: usize = 0;
    let mut j: usize = 0;
    proof {
        // Nothing is merged yet, and nothing is taken from either run.
        assert(left@.take(0) =~= merged@);
        assert(right@.take(0) =~= merged@);
        assert(merged@ + merged@ =~= merged@);
        lemma_multiset_commutative(merged@, merged@);
    }
    while i < left.len() || j < right.len()
        invariant
            i <= left.len(),
            j <= right.len(),
            ordered(left@),
            ordered(right@),
            ordered(merged@),
            merged@.to_multiset() == left@.take(i as int).to_multiset().add(
                right@.take(j as int).to_multiset(),
            ),
            forall|x: int|
                0 <= x < merged.len() && i < left.len() ==> precedes(
                    #[trigger] merged[x],
                    left[i as int],
                ),
            forall|x: int|
                0 <= x < merged.len() && j < right.len() ==> precedes(
                    #[trigger] merged[x],
                    right[j as int],
                ),
        decreases left.len() - i + (right.len() - j),
    {
        let from_left = if j >= right.len() {
            true
        } else if i >= left.len() {
            false
        } else {
            comes_first(&left[i], &right[j])
        };
        let ghost before = merged@;
        if from_left {
            let region = left[i];
            merged.push(region);
            proof {
                vstd::seq_lib::to_multiset_build(before, region);
                vstd::seq_lib::to_multiset_build(left@.take(i as int), region);
                assert(left@.take(i + 1) =~= left@.take(i as int).push(region));
                assert(merged@.to_multiset() =~= left@.take(i + 1).to_multiset().add(
                    right@.take(j as int).to_multiset(),
                ));
                // What is merged stands before `region`, and `region` before
                // what is left of both runs.
                assert forall|x: int| 0 <= x < merged.len() implies (i + 1 < left.len()
                    ==> precedes(#[trigger] merged[x], left[i + 1])) && (j < right.len()
                    ==> precedes(merged[x], right[j as int])) by {
                    if i + 1 < left.len() {
                        assert(precedes(left[i as int], left[i + 1]));
                    }
                }
            }
            i += 1;
        } else {
            let region = right[j];
            merged.push(region);
            proof {
                vstd::seq_lib::to_multiset_build(before, region);
                vstd::seq_lib::to_multiset_build(right@.take(j as int), region);
                assert(right@.take(j + 1) =~= right@.take(j as int).push(region));
                assert(merged@.to_multiset() =~= left@.take(i as int).to_multiset().add(
                    right@.take(j + 1).to_multiset(),
                ));
                assert forall|x: int| 0 <= x < merged.len() implies (i < left.len()
                    ==> precedes(#[trigger] merged[x], left[i as int])) && (j + 1 < right.len()
                    ==> precedes(merged[x], right[j + 1])) by {
                    if j + 1 < right.len() {
                        assert(precedes(right[j as int], right[j + 1]));
                    }
                }
            }
            j += 1;
        }
    }
    proof {
        assert(left@.take(i as int) =~= left@);
        assert(right@.take(j as int) =~= right@);
    }
    merged
}

/// Sorts the regions from index `low` up to, not including, index `high`
/// by merging the sorted halves.
fn sort_range(regions: &Vec<Region>, low: usize, high: usize) -> (sorted: Vec<Region>)
    requires
        low <= high <= regions.len(),
    ensures
        ordered(sorted@),
        sorted@.to_multiset() == regions@.subrange(low as int, high as int).to_multiset(),
    decreases high - low,
{
    if high - low <= 1 {
        let mut sorted: Vec<Region> = Vec::new();
        if high - low == 1 {
            sorted.push(regions[low]);
        }
        proof {
            assert(sorted@ =~= regions@.subrange(low as int, high as int));
        }
        sorted
    } else {
        let middle: usize = low + (high - low) / 2;
        let left = sort_range(regions, low, middle);
        let right = sort_range(regions, middle, high);
        proof {
            let front = regions@.subrange(low as int, middle as int);
            let back = regions@.subrange(middle as int, high as int);
            assert(regions@.subrange(low as int, high as int) =~= front + back);
            lemma_multiset_commutative(front, back);
        }
        merge(&left, &right)
    }
}

/// Returns the regions ordered by buffer and, within one buffer, by start.
/// The result holds the same regions, each as often as the input does.
pub fn sort_regions(regions: &Vec<Region>) -> (sorted: Vec<Region>)
    ensures
        ordered(sorted@),
        sorted@.to_multiset() == regions@.to_multiset(),
{
    proof {
        assert(regions@.subrange(0, regions.len() as int) =~= regions@);
    }
    sort_range(regions, 0, regions.len())
}

} // verus!
