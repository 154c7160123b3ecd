use composition::{
    check_fold, combine, construct, decompose, num_parts, singleton, split, to_partition,
    to_string, CompositionError, Operation,
};

#[test]
fn combine_puts_the_first_parts_before_the_second() {
    let cat = Operation { tag: 2, fun: |a: String, b: String| a + &b };
    let x = construct(vec!["a".to_string(), "b".to_string()], "".to_string(), cat, false);
    let y = construct(vec!["c".to_string()], "".to_string(), cat, false);
    let xy = combine(x, y, true).unwrap();
    assert_eq!(to_string(&xy), "[\"a\", \"b\", \"c\"] of abc with 3 parts");
    assert!(check_fold(&xy));
}

#[test]
fn combine_folds_the_two_nets_and_not_the_parts() {
    let sub = Operation { tag: 3, fun: |a: i32, b: i32| a - b };
    let x = construct(vec![5], 0, sub, false);
    let y = construct(vec![3], 0, sub, false);
    assert_eq!(to_string(&x), "[5] of -5 with 1 parts");
    assert_eq!(to_string(&y), "[3] of -3 with 1 parts");
    let xy = combine(x, y, true).unwrap();
    // (-5) - (-3), where folding 5 and 3 again from 0 would give -8.
    assert_eq!(to_string(&xy), "[5, 3] of -2 with 2 parts");
    assert!(!check_fold(&xy));
}

#[test]
fn combine_refuses_another_initial_value() {
    let add = Operation { tag: 0, fun: |a: u32, b: u32| a + b };
    let x = construct(vec![1], 0, add, true);
    let y = construct(vec![2], 1, add, true);
    assert_eq!(combine(x, y, true).err(), Some(CompositionError::AlgebraMismatch));
}

#[test]
fn combine_refuses_another_operation() {
    let plus: fn(u32, u32) -> u32 = |a, b| a + b;
    let or: fn(u32, u32) -> u32 = |a, b| a | b;
    let x = construct(vec![1], 0, Operation { tag: 0, fun: plus }, true);
    let y = construct(vec![2], 0, Operation { tag: 9, fun: or }, true);
    assert_eq!(combine(x, y, true).err(), Some(CompositionError::AlgebraMismatch));
}

#[test]
fn combine_tells_operations_apart_by_their_tags_alone() {
    let plus: fn(u32, u32) -> u32 = |a, b| a + b;
    let x = construct(vec![1], 0, Operation { tag: 0, fun: plus }, true);
    let y = construct(vec![2], 0, Operation { tag: 9, fun: plus }, true);
    assert_eq!(combine(x, y, true).err(), Some(CompositionError::AlgebraMismatch));
    let times: fn(u32, u32) -> u32 = |a, b| a * b;
    let x = construct(vec![3], 0, Operation { tag: 0, fun: plus }, true);
    let y = construct(vec![4], 0, Operation { tag: 0, fun: times }, true);
    assert_eq!(to_string(&y), "[4] of 0 with 1 parts");
    // The operation of the first is the one that is kept and applied.
    let xy = combine(x, y, true).unwrap();
    assert_eq!(to_string(&xy), "[3, 4] of 3 with 2 parts");
    let z = construct(vec![5], 0, Operation { tag: 0, fun: plus }, true);
    assert_eq!(to_string(&combine(xy, z, true).unwrap()), "[3, 4, 5] of 8 with 3 parts");
}

#[test]
fn combine_unchecked_takes_the_algebra_of_the_first() {
    let plus = |a: u32, b: u32| a + b;
    let x = construct(vec![1], 0, Operation { tag: 0, fun: plus }, true);
    let y = construct(vec![2], 1, Operation { tag: 9, fun: plus }, true);
    assert_eq!(to_string(&y), "[2] of 3 with 1 parts");
    let xy = combine(x, y, false).unwrap();
    assert_eq!(to_string(&xy), "[1, 2] of 4 with 2 parts");
    // The result starts from 0 as the first did: 0 + 1 + 2 is not 4.
    assert!(!check_fold(&xy));
    // It carries the tag of the first.
    let z = construct(vec![7], 0, Operation { tag: 0, fun: plus }, true);
    assert!(combine(xy, z, true).is_ok());
}

#[test]
fn combine_is_commutative_only_where_both_are() {
    let add = Operation { tag: 0, fun: |a: u32, b: u32| a + b };
    let both = combine(construct(vec![1], 0, add, true), construct(vec![2], 0, add, true), true)
        .unwrap();
    assert!(split(&both, |z| *z == 1).is_ok());
    let left_only =
        combine(construct(vec![1], 0, add, true), construct(vec![2], 0, add, false), true)
            .unwrap();
    assert_eq!(
        split(&left_only, |z| *z == 1).err(),
        Some(CompositionError::NonCommutativeSplit)
    );
    let right_only =
        combine(construct(vec![1], 0, add, false), construct(vec![2], 0, add, true), true)
            .unwrap();
    assert_eq!(to_partition(right_only).err(), Some(CompositionError::NonCommutativeSort));
    let neither =
        combine(construct(vec![1], 0, add, false), construct(vec![2], 0, add, false), true)
            .unwrap();
    assert_eq!(to_partition(neither).err(), Some(CompositionError::NonCommutativeSort));
}

#[test]
fn combine_with_a_composition_of_no_parts() {
    let add = Operation { tag: 0, fun: |a: u32, b: u32| a + b };
    let x = construct(vec![3, 4], 0, add, true);
    let nothing = construct(Vec::new(), 0, add, true);
    let same = combine(x, nothing, true).unwrap();
    assert_eq!(to_string(&same), "[3, 4] of 7 with 2 parts");
    assert!(check_fold(&same));
}

#[test]
fn decompose_puts_the_parts_in_the_place_of_one() {
    let add = Operation { tag: 0, fun: |a: u32, b: u32| a + b };
    let mut x = construct(vec![10, 20, 30], 0, add, true);
    let y = construct(vec![5, 7, 8], 0, add, true);
    assert_eq!(decompose(&mut x, y, 1, true), Ok(()));
    assert_eq!(to_string(&x), "[10, 5, 7, 8, 30] of 60 with 5 parts");
    assert_eq!(num_parts(&x), 3 + 3 - 1);
    assert!(check_fold(&x));
}

#[test]
fn decompose_at_the_first_and_at_the_last_part() {
    let add = Operation { tag: 0, fun: |a: u32, b: u32| a + b };
    let mut x = construct(vec![3, 9], 0, add, true);
    decompose(&mut x, construct(vec![1, 2], 0, add, true), 0, true).unwrap();
    assert_eq!(to_string(&x), "[1, 2, 9] of 12 with 3 parts");
    decompose(&mut x, construct(vec![4, 5], 0, add, true), 2, true).unwrap();
    assert_eq!(to_string(&x), "[1, 2, 4, 5] of 12 with 4 parts");
    assert!(check_fold(&x));
}

#[test]
fn decompose_by_no_parts_removes_the_part() {
    let add = Operation { tag: 0, fun: |a: u32, b: u32| a + b };
    let mut x = construct(vec![1, 0, 2], 0, add, true);
    decompose(&mut x, construct(Vec::new(), 0, add, true), 1, true).unwrap();
    assert_eq!(to_string(&x), "[1, 2] of 3 with 2 parts");
    assert_eq!(num_parts(&x), 3 + 0 - 1);
}

#[test]
fn decompose_refuses_another_algebra() {
    let plus = |a: u32, b: u32| a + b;
    let mut x = construct(vec![1, 6, 1], 0, Operation { tag: 0, fun: plus }, true);
    let other_start = construct(vec![2, 3], 1, Operation { tag: 0, fun: plus }, true);
    assert_eq!(
        decompose(&mut x, other_start, 1, true),
        Err(CompositionError::AlgebraMismatch)
    );
    let other_tag = construct(vec![2, 4], 0, Operation { tag: 1, fun: plus }, true);
    assert_eq!(decompose(&mut x, other_tag, 1, true), Err(CompositionError::AlgebraMismatch));
    assert_eq!(to_string(&x), "[1, 6, 1] of 8 with 3 parts");
}

#[test]
fn decompose_refuses_parts_that_do_not_fold_to_the_part() {
    let add = Operation { tag: 0, fun: |a: u32, b: u32| a + b };
    let mut x = construct(vec![1, 6, 1], 0, add, true);
    let y = construct(vec![2, 3], 0, add, true);
    assert_eq!(decompose(&mut x, y, 1, true), Err(CompositionError::DecompositionMismatch));
    assert_eq!(to_string(&x), "[1, 6, 1] of 8 with 3 parts");
}

#[test]
fn decompose_refuses_a_position_past_the_parts() {
    let add = Operation { tag: 0, fun: |a: u32, b: u32| a + b };
    let mut x = construct(vec![1, 6, 1], 0, add, true);
    let y = construct(vec![2, 4], 0, add, true);
    assert_eq!(decompose(&mut x, y, 3, true), Err(CompositionError::IndexOutOfRange));
    let y = construct(vec![2, 4], 0, add, true);
    assert_eq!(decompose(&mut x, y, 3, false), Err(CompositionError::IndexOutOfRange));
    let y = construct(vec![2, 4], 0, add, true);
    assert_eq!(decompose(&mut x, y, usize::MAX, false), Err(CompositionError::IndexOutOfRange));
    assert_eq!(to_string(&x), "[1, 6, 1] of 8 with 3 parts");
    let mut empty = construct(Vec::new(), 0, add, true);
    let y = construct(vec![2, 4], 0, add, true);
    assert_eq!(decompose(&mut empty, y, 0, true), Err(CompositionError::IndexOutOfRange));
}

#[test]
fn decompose_names_the_algebra_before_the_position() {
    let add = Operation { tag: 0, fun: |a: u32, b: u32| a + b };
    let mut x = construct(vec![1, 6, 1], 0, add, true);
    let y = construct(vec![2, 4], 5, add, true);
    assert_eq!(decompose(&mut x, y, 9, true), Err(CompositionError::AlgebraMismatch));
}

#[test]
fn decompose_unchecked_leaves_the_net_alone() {
    let add = Operation { tag: 0, fun: |a: u32, b: u32| a + b };
    let mut x = construct(vec![1, 6, 1], 0, add, true);
    let y = construct(vec![2, 3], 7, Operation { tag: 5, fun: add.fun }, true);
    assert_eq!(decompose(&mut x, y, 1, false), Ok(()));
    assert_eq!(to_string(&x), "[1, 2, 3, 1] of 8 with 4 parts");
    assert!(!check_fold(&x));
}

#[test]
fn singleton_parts_combine_to_a_consistent_whole() {
    let mul = Operation { tag: 1, fun: |a: u64, b: u64| a * b };
    let a = singleton(3, 1, mul, true).unwrap();
    let b = singleton(5, 1, mul, true).unwrap();
    let c = singleton(7, 1, mul, true).unwrap();
    let abc = combine(a, combine(b, c, true).unwrap(), true).unwrap();
    assert_eq!(to_string(&abc), "[3, 5, 7] of 105 with 3 parts");
    assert!(check_fold(&abc));
}

#[test]
fn combine_with_no_parts_needs_an_identity_on_the_right() {
    // Taking the second of two values is associative, and any value is its
    // identity on the left; none is on the right.
    let second = Operation { tag: 6, fun: |_a: u32, b: u32| b };
    let x = construct(vec![5], 0, second, false);
    let nothing = construct(Vec::new(), 0, second, false);
    assert!(check_fold(&x));
    assert!(check_fold(&nothing));
    let xy = combine(x, nothing, true).unwrap();
    assert_eq!(to_string(&xy), "[5] of 0 with 1 parts");
    assert!(!check_fold(&xy));
    let y = construct(vec![8], 0, second, false);
    let more = combine(xy, y, true).unwrap();
    assert_eq!(to_string(&more), "[5, 8] of 8 with 2 parts");
    assert!(check_fold(&more));
}
