//! What the aliasing discipline guarantees, stated over `verdict`, which is
//! what `check` returns, and over the interval model of spans.

use vstd::prelude::*;
use crate::discipline::{
    anchored,
    has_dangling,
    has_exclusive_clash,
    has_mixed_clash,
    verdict,
    ErrorKind,
    Violation,
};
use crate::region::Region;
use crate::span::Interval;

verus! {

/// Two valid intervals overlap exactly when some program point lies in both
/// of them.
pub proof fn law_overlap_is_shared_point(a: Interval, b: Interval)
    requires
        a.valid(),
        b.valid(),
    ensures
        a.overlaps(b) <==> exists|at: int| #[trigger] a.contains(at) && b.contains(at),
{
    if a.overlaps(b) {
        // The later of the two starts lies in both.
        let at = if a.start <= b.start {
            b.start
        } else {
            a.start
        };
        assert(a.contains(at) && b.contains(at));
    }
}

/// An interval covers a valid one exactly when it contains every point of
/// it.
pub proof fn law_cover_is_inclusion(outer: Interval, inner: Interval)
    requires
        inner.valid(),
    ensures
        outer.covers(inner) <==> forall|at: int| #[trigger]
            inner.contains(at) ==> outer.contains(at),
{
    if forall|at: int| #[trigger] inner.contains(at) ==> outer.contains(at) {
        assert(inner.contains(inner.start));
        assert(inner.contains(inner.end));
    }
}

/// The regions are accepted exactly when no two exclusive borrows clash, no
/// exclusive borrow clashes with a shared one, and no borrow dangles.
pub proof fn law_accepted_iff_sound(regions: Seq<Region>)
    ensures
        verdict(regions) is Ok <==> !has_exclusive_clash(regions) && !has_mixed_clash(regions)
            && !has_dangling(regions),
{
}

/// Regions without an exclusive borrow are accepted when every shared
/// borrow lies inside the span of an owner of its buffer: shared borrows
/// never stand in each other's way, however many there are and however
/// they overlap.
pub proof fn law_shared_borrows_coexist(regions: Seq<Region>)
    requires
        forall|i: int| 0 <= i < regions.len() ==> !((#[trigger] regions[i]).kind is Exclusive),
        forall|i: int|
            0 <= i < regions.len() && (#[trigger] regions[i]).kind is Shared ==> anchored(
                regions,
                regions[i],
            ),
    ensures
        verdict(regions) == Ok::<(), Violation>(()),
{
}

/// An owner followed by any number of shared borrows of its buffer, each
/// inside the owner's span, is accepted, whether or not the borrows overlap.
pub proof fn law_shared_borrows_of_one_owner(owner: Region, borrows: Seq<Region>)
    requires
        owner.kind is Owner,
        forall|i: int|
            0 <= i < borrows.len() ==> {
                &&& (#[trigger] borrows[i]).kind is Shared
                &&& borrows[i].buffer == owner.buffer
                &&& owner.span@.covers(borrows[i].span@)
            },
    ensures
        verdict(seq![owner] + borrows) == Ok::<(), Violation>(()),
{
    let regions = seq![owner] + borrows;
    assert forall|i: int| 0 <= i < regions.len() implies
        !((#[trigger] regions[i]).kind is Exclusive)
        && (regions[i].kind is Shared ==> anchored(regions, regions[i])) by {
        if i > 0 {
            assert(regions[i] == borrows[i - 1]);
            assert(regions[0].anchors(regions[i]));
        }
    }
    law_shared_borrows_coexist(regions);
}

/// Two exclusive borrows of one buffer that are live together are rejected
/// as an exclusive overlap, whatever else the regions hold.
pub proof fn law_overlapping_exclusive_rejected(regions: Seq<Region>, i: int, j: int)
    requires
        0 <= i < regions.len(),
        0 <= j < regions.len(),
        i != j,
        regions[i].kind is Exclusive,
        regions[j].kind is Exclusive,
        regions[i].buffer == regions[j].buffer,
        regions[i].span@.overlaps(regions[j].span@),
    ensures
        verdict(regions) == Err::<(), Violation>(Violation::ExclusiveOverlap),
{
    if i < j {
        assert(regions[i].exclusive_clash(regions[j]));
    } else {
        assert(regions[j].exclusive_clash(regions[i]));
    }
}

/// An owner with two exclusive borrows of its buffer, each inside the
/// owner's span, is rejected when the two borrows are live together and
/// accepted when they are not.
pub proof fn law_exclusive_pair(owner: Region, first: Region, second: Region)
    requires
        owner.kind is Owner,
        first.kind is Exclusive,
        second.kind is Exclusive,
        first.buffer == owner.buffer,
        second.buffer == owner.buffer,
        owner.span@.covers(first.span@),
        owner.span@.covers(second.span@),
    ensures
        verdict(seq![owner, first, second]) == (if first.span@.overlaps(second.span@) {
            Err::<(), Violation>(Violation::ExclusiveOverlap)
        } else {
            Ok::<(), Violation>(())
        }),
{
    let regions = seq![owner, first, second];
    if first.span@.overlaps(second.span@) {
        law_overlapping_exclusive_rejected(regions, 1, 2);
    } else {
        assert(regions[0].anchors(regions[1]));
        assert(regions[0].anchors(regions[2]));
    }
}

/// A borrow of either kind that starts after an earlier borrow of the same
/// buffer has ended is accepted beside it, both lying inside the owner's
/// span.
pub proof fn law_borrow_after_borrow_accepted(owner: Region, earlier: Region, later: Region)
    requires
        owner.kind is Owner,
        earlier.is_borrow(),
        later.is_borrow(),
        earlier.buffer == owner.buffer,
        later.buffer == owner.buffer,
        owner.span@.covers(earlier.span@),
        owner.span@.covers(later.span@),
        earlier.span@.end < later.span@.start,
    ensures
        verdict(seq![owner, earlier, later]) == Ok::<(), Violation>(()),
{
    let regions = seq![owner, earlier, later];
    assert(regions[0].anchors(regions[1]));
    assert(regions[0].anchors(regions[2]));
}

/// An exclusive and a shared borrow of one buffer that are live together
/// are rejected as an aliasing violation, whatever else the regions hold:
/// as a shared-exclusive overlap unless two exclusive borrows clash as well.
pub proof fn law_exclusive_with_shared_rejected(regions: Seq<Region>, i: int, j: int)
    requires
        0 <= i < regions.len(),
        0 <= j < regions.len(),
        regions[i].kind is Exclusive,
        regions[j].kind is Shared,
        regions[i].buffer == regions[j].buffer,
        regions[i].span@.overlaps(regions[j].span@),
    ensures
        verdict(regions) is Err,
        verdict(regions)->Err_0.kind() == ErrorKind::AliasingViolation,
        verdict(regions) == (if has_exclusive_clash(regions) {
            Err::<(), Violation>(Violation::ExclusiveOverlap)
        } else {
            Err::<(), Violation>(Violation::SharedExclusiveOverlap)
        }),
{
    assert(regions[i].mixed_clash(regions[j]));
}

/// A borrow that no owner of its buffer covers is rejected, whatever else
/// the regions hold: as a dangling borrow unless borrows clash as well.
pub proof fn law_uncovered_borrow_rejected(regions: Seq<Region>, borrow: int)
    requires
        0 <= borrow < regions.len(),
        regions[borrow].is_borrow(),
        forall|o: int|
            0 <= o < regions.len() && (#[trigger] regions[o]).kind is Owner && regions[o].buffer
                == regions[borrow].buffer ==> !regions[o].span@.covers(regions[borrow].span@),
    ensures
        verdict(regions) is Err,
        !has_exclusive_clash(regions) && !has_mixed_clash(regions) ==> verdict(regions) == Err::<
            (),
            Violation,
        >(Violation::DanglingBorrow),
{
    assert(!anchored(regions, regions[borrow]));
}

/// A borrow whose span reaches beyond the span of the one owner of its
/// buffer, at its start or at its end, is rejected, whatever else the
/// regions hold: as a dangling borrow unless borrows clash as well.
pub proof fn law_borrow_beyond_owner_rejected(regions: Seq<Region>, borrow: int, owner: int)
    requires
        0 <= borrow < regions.len(),
        0 <= owner < regions.len(),
        regions[borrow].is_borrow(),
        regions[owner].kind is Owner,
        regions[owner].buffer == regions[borrow].buffer,
        forall|o: int|
            0 <= o < regions.len() && (#[trigger] regions[o]).kind is Owner && regions[o].buffer
                == regions[borrow].buffer ==> o == owner,
        regions[borrow].span@.start < regions[owner].span@.start || regions[borrow].span@.end
            > regions[owner].span@.end,
    ensures
        verdict(regions) is Err,
        !has_exclusive_clash(regions) && !has_mixed_clash(regions) ==> verdict(regions) == Err::<
            (),
            Violation,
        >(Violation::DanglingBorrow),
{
    law_uncovered_borrow_rejected(regions, borrow);
}

/// In accepted regions an exclusive borrow is, at every point at which it
/// is live, the only live borrow of its buffer.
pub proof fn law_exclusive_borrow_is_alone(
    regions: Seq<Region>,
    exclusive: int,
    other: int,
    at: int,
)
    requires
        verdict(regions) is Ok,
        0 <= exclusive < regions.len(),
        0 <= other < regions.len(),
        exclusive != other,
        regions[exclusive].kind is Exclusive,
        regions[other].is_borrow(),
        regions[other].buffer == regions[exclusive].buffer,
        regions[exclusive].span@.contains(at),
    ensures
        !regions[other].span@.contains(at),
{
    if regions[other].span@.contains(at) {
        if regions[other].kind is Shared {
            assert(regions[exclusive].mixed_clash(regions[other]));
        } else if exclusive < other {
            assert(regions[exclusive].exclusive_clash(regions[other]));
        } else {
            assert(regions[other].exclusive_clash(regions[exclusive]));
        }
    }
}

/// In accepted regions an owner of the buffer is live at every point at
/// which a borrow of the buffer is live.
pub proof fn law_live_borrow_has_live_owner(regions: Seq<Region>, borrow: int, at: int)
    requires
        verdict(regions) is Ok,
        0 <= borrow < regions.len(),
        regions[borrow].is_borrow(),
        regions[borrow].span@.contains(at),
    ensures
        exists|o: int|
            0 <= o < regions.len() && (#[trigger] regions[o]).kind is Owner && regions[o].buffer
                == regions[borrow].buffer && regions[o].span@.contains(at),
{
    assert(anchored(regions, regions[borrow]));
    let owner = choose|o: int|
        0 <= o < regions.len() && #[trigger] regions[o].anchors(regions[borrow]);
    assert(regions[owner].kind is Owner && regions[owner].span@.contains(at));
}

} // verus!
