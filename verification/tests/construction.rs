use composition::algebra::fold;
use composition::{
    check_fold, construct, num_parts, singleton, to_string, Composition, CompositionError,
    Operation,
};

#[test]
fn singleton_holds_its_net_as_its_only_part() {
    let add = Operation { tag: 0, fun: |a: u32, b: u32| a + b };
    let seven: Composition<u32, _> = singleton(7, 0, add, false).unwrap();
    assert_eq!(num_parts(&seven), 1);
    assert!(check_fold(&seven));
    assert_eq!(to_string(&seven), "[7] of 7 with 1 parts");
}

#[test]
fn singleton_refuses_an_initial_value_that_is_no_identity() {
    let add = Operation { tag: 0, fun: |a: u32, b: u32| a + b };
    assert_eq!(singleton(5, 1, add, true).err(), Some(CompositionError::IdentityViolation));
    let mul = Operation { tag: 1, fun: |a: u32, b: u32| a * b };
    assert_eq!(singleton(5, 0, mul, true).err(), Some(CompositionError::IdentityViolation));
}

#[test]
fn singleton_accepts_whenever_the_fold_gives_the_part_back() {
    let mul = Operation { tag: 1, fun: |a: u32, b: u32| a * b };
    assert!(singleton(5, 1, mul, true).is_ok());
    // 0 * 0 == 0: the test is passed although 0 is no identity of multiplication.
    assert!(singleton(0, 0, mul, true).is_ok());
}

#[test]
fn construct_folds_from_the_left() {
    let sub = Operation { tag: 3, fun: |a: i32, b: i32| a - b };
    let c = construct(vec![1, 2, 3], 10, sub, false);
    assert_eq!(to_string(&c), "[1, 2, 3] of 4 with 3 parts");
    assert!(check_fold(&c));
}

#[test]
fn construct_does_not_test_the_identity() {
    let add = Operation { tag: 0, fun: |a: u32, b: u32| a + b };
    let c = construct(vec![2, 3], 1, add, true);
    assert_eq!(to_string(&c), "[2, 3] of 6 with 2 parts");
    assert!(check_fold(&c));
    assert_eq!(singleton(2, 1, add, true).err(), Some(CompositionError::IdentityViolation));
}

#[test]
fn construct_of_no_parts_has_the_initial_value_as_net() {
    let add = Operation { tag: 0, fun: |a: u32, b: u32| a + b };
    let c = construct(Vec::new(), 5, add, true);
    assert_eq!(num_parts(&c), 0);
    assert!(check_fold(&c));
    assert_eq!(to_string(&c), "[] of 5 with 0 parts");
}

#[test]
fn num_parts_counts_every_part() {
    let add = Operation { tag: 0, fun: |a: u64, b: u64| a + b };
    let c = construct(vec![4, 4, 4, 4, 4, 4, 4, 4, 4, 4, 4, 4], 0, add, true);
    assert_eq!(num_parts(&c), 12);
    assert_eq!(to_string(&c), "[4, 4, 4, 4, 4, 4, 4, 4, 4, 4, 4, 4] of 48 with 12 parts");
}

#[test]
fn fold_applies_the_operation_part_by_part() {
    let sub = |a: i64, b: i64| a - b;
    assert_eq!(fold(&sub, &100, &vec![1, 20, 300]), -221);
    assert_eq!(fold(&sub, &100, &Vec::new()), 100);
    let cat = |a: String, b: String| a + "," + &b;
    assert_eq!(
        fold(&cat, &"x".to_string(), &vec!["a".to_string(), "b".to_string()]),
        "x,a,b"
    );
}

#[test]
fn operation_is_copied_with_its_tag() {
    let add = Operation { tag: 41, fun: |a: u8, b: u8| a + b };
    let copy = add;
    assert_eq!(add.tag, 41);
    assert_eq!(copy.tag, 41);
    assert_eq!((copy.fun)(2, 3), 5);
    assert_eq!(add.clone().tag, 41);
}
