use borrow_regions::buffer::{calculate_length, rustify};
use borrow_regions::discipline::{check, Violation};
use borrow_regions::region::Region;
use borrow_regions::span::Span;

// Buffers of the walk-through program, by the name of their owner.
const S1: u64 = 1;
const S2: u64 = 2;
const S3: u64 = 3;
const S4: u64 = 4;
const S5: u64 = 5;
const S6: u64 = 6;

/// The regions of a program that makes six buffers in turn and borrows
/// each: one statement per program point, every span ending at the last
/// use of its binding.
fn walk_through() -> Vec<Region> {
    vec![
        // s1 is made, lent for a length query, then printed.
        Region::owner(S1, Span::from_uses(1, &vec![2, 3])),
        Region::shared(S1, Span::from_uses(2, &vec![])),
        // s2 is made, lent exclusively for an append, then printed.
        Region::owner(S2, Span::from_uses(4, &vec![5, 6])),
        Region::exclusive(S2, Span::from_uses(5, &vec![])),
        // s3 is lent twice, shared; neither borrow is used.
        Region::owner(S3, Span::from_uses(7, &vec![8, 9])),
        Region::shared(S3, Span::from_uses(8, &vec![])),
        Region::shared(S3, Span::from_uses(9, &vec![])),
        // s4 is lent twice, exclusively; neither borrow is used.
        Region::owner(S4, Span::from_uses(10, &vec![11, 12])),
        Region::exclusive(S4, Span::from_uses(11, &vec![])),
        Region::exclusive(S4, Span::from_uses(12, &vec![])),
        // s5 is lent shared, then exclusively; neither borrow is used.
        // Much later it is lent exclusively again, and that borrow printed.
        Region::owner(S5, Span::from_uses(13, &vec![14, 15, 19, 20])),
        Region::shared(S5, Span::from_uses(14, &vec![])),
        Region::exclusive(S5, Span::from_uses(15, &vec![])),
        // s6 is lent exclusively in a nested block and appended to there.
        Region::owner(S6, Span::from_uses(16, &vec![17, 18])),
        Region::exclusive(S6, Span::from_uses(17, &vec![18])),
        Region::exclusive(S5, Span::from_uses(19, &vec![20])),
    ]
}

#[test]
fn the_walk_through_is_accepted() {
    assert_eq!(check(&walk_through()), Ok(()));
}

#[test]
fn using_both_exclusive_borrows_of_s4_is_rejected() {
    let mut regions = walk_through();
    // Both borrows are printed at point 21.
    regions[7] = Region::owner(S4, Span::from_uses(10, &vec![11, 12, 21]));
    regions[8] = Region::exclusive(S4, Span::from_uses(11, &vec![21]));
    regions[9] = Region::exclusive(S4, Span::from_uses(12, &vec![21]));
    assert_eq!(check(&regions), Err(Violation::ExclusiveOverlap));
}

#[test]
fn using_only_the_second_exclusive_borrow_of_s4_is_accepted() {
    let mut regions = walk_through();
    regions[7] = Region::owner(S4, Span::from_uses(10, &vec![11, 12, 21]));
    regions[9] = Region::exclusive(S4, Span::from_uses(12, &vec![21]));
    assert_eq!(check(&regions), Ok(()));
}

#[test]
fn using_the_shared_and_the_exclusive_borrow_of_s5_is_rejected() {
    let mut regions = walk_through();
    // Both borrows are printed at point 16, before s5 is lent again.
    regions[11] = Region::shared(S5, Span::from_uses(14, &vec![16]));
    regions[12] = Region::exclusive(S5, Span::from_uses(15, &vec![16]));
    assert_eq!(check(&regions), Err(Violation::SharedExclusiveOverlap));
}

#[test]
fn returning_a_borrow_of_a_local_buffer_is_rejected() {
    // The buffer is made at point 1 and its owner ends with the function
    // at point 3; the borrow made at point 2 is used by the caller at 4.
    let regions = vec![
        Region::owner(1, Span::from_uses(1, &vec![2, 3])),
        Region::shared(1, Span::from_uses(2, &vec![4])),
    ];
    assert_eq!(check(&regions), Err(Violation::DanglingBorrow));
}

#[test]
fn returning_the_buffer_itself_is_accepted() {
    // Ownership moves to the caller: the buffer gets a new owner there,
    // and the caller's borrow is held against that owner.
    let regions = vec![
        Region::owner(1, Span::from_uses(1, &vec![3])),
        Region::owner(1, Span::from_uses(4, &vec![5, 6])),
        Region::shared(1, Span::from_uses(5, &vec![6])),
    ];
    assert_eq!(check(&regions), Ok(()));
}

#[test]
fn nested_append_then_exclusive_borrow_of_another_owner() {
    let mut s5 = String::from("Rust is cool");
    let r5 = &s5;
    assert_eq!(calculate_length(r5), 12);
    let mut s6 = String::from("Rust is");
    {
        let r7 = &mut s6;
        r7.push_str(" cool");
    }
    assert_eq!(s6, "Rust is cool");
    let r7 = &mut s5;
    rustify(r7);
    assert_eq!(s5, "Rust is cool 🦀");

    // The same steps as regions: s5 made at 1 and lent shared at 2 and 3;
    // s6 made at 4, lent exclusively at 5 and appended to at 6 inside the
    // block; s5 lent exclusively at 7 and written through at 8.
    let regions = vec![
        Region::owner(S5, Span::from_uses(1, &vec![2, 3, 7, 8])),
        Region::shared(S5, Span::from_uses(2, &vec![3])),
        Region::owner(S6, Span::from_uses(4, &vec![5, 6])),
        Region::exclusive(S6, Span::from_uses(5, &vec![6])),
        Region::exclusive(S5, Span::from_uses(7, &vec![8])),
    ];
    assert_eq!(check(&regions), Ok(()));
}

#[test]
fn length_query_then_append_prints_the_expected_lines() {
    let s1 = String::from("This ref is rusty!");
    let len = calculate_length(&s1);
    let first = format!("la cadena {} tiene una logitud de {}", s1, len);
    let mut s2 = String::from("Rust");
    rustify(&mut s2);
    let second = format!("{s2}");
    assert_eq!(first, "la cadena This ref is rusty! tiene una logitud de 18");
    assert_eq!(second, "Rust 🦀");
}
