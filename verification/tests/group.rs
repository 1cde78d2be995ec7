use snarkvm_debug::group::{
    edwards_affine_from_single, edwards_affine_from_tuple, edwards_affine_from_value, edwards_affine_from_x,
    edwards_affine_from_y, GroupError, Recovery,
};
use snarkvm_debug::ir::{Field, Group, GroupCoordinate};

fn field(values: Vec<u64>) -> Field {
    Field { values, negate: false }
}

#[test]
fn zero_number_is_the_neutral_element() {
    assert!(matches!(edwards_affine_from_single(&field(vec![0, 0, 0, 0])), Recovery::Zero));
    assert!(matches!(edwards_affine_from_single(&field(vec![])), Recovery::Zero));
    match edwards_affine_from_single(&field(vec![0, 5])) {
        Recovery::Multiple(f) => assert_eq!(f.values, vec![0, 5]),
        _ => panic!("a nonzero number is a multiple of the generator"),
    }
}

#[test]
fn coordinate_pairs_ask_for_their_recovery() {
    let x = GroupCoordinate::Field(field(vec![1]));
    let y = GroupCoordinate::Field(field(vec![2]));
    assert!(matches!(edwards_affine_from_tuple(&x, &y), Ok(Recovery::Pair(_, _))));
    assert!(matches!(edwards_affine_from_tuple(&x, &GroupCoordinate::SignHigh), Ok(Recovery::FromX(_, Some(true)))));
    assert!(matches!(edwards_affine_from_tuple(&x, &GroupCoordinate::SignLow), Ok(Recovery::FromX(_, Some(false)))));
    assert!(matches!(edwards_affine_from_tuple(&x, &GroupCoordinate::Inferred), Ok(Recovery::FromX(_, None))));
    assert!(matches!(edwards_affine_from_tuple(&GroupCoordinate::SignHigh, &y), Ok(Recovery::FromY(_, Some(true)))));
    assert!(matches!(edwards_affine_from_tuple(&GroupCoordinate::SignLow, &y), Ok(Recovery::FromY(_, Some(false)))));
    assert!(matches!(edwards_affine_from_tuple(&GroupCoordinate::Inferred, &y), Ok(Recovery::FromY(_, None))));
}

#[test]
fn two_signs_are_no_group() {
    let r = edwards_affine_from_tuple(&GroupCoordinate::SignHigh, &GroupCoordinate::Inferred);
    assert!(matches!(r, Err(GroupError::InvalidGroup(ref t)) if t == "(+, _)"));
    let r = edwards_affine_from_tuple(&GroupCoordinate::Inferred, &GroupCoordinate::SignLow);
    assert!(matches!(r, Err(GroupError::InvalidGroup(ref t)) if t == "(_, -)"));
    let g = Group::Tuple(GroupCoordinate::SignLow, GroupCoordinate::SignHigh);
    assert!(matches!(edwards_affine_from_value(&g), Err(GroupError::InvalidGroup(ref t)) if t == "(-, +)"));
}

#[test]
fn values_dispatch_on_their_form() {
    assert!(matches!(edwards_affine_from_value(&Group::Single(field(vec![0]))), Ok(Recovery::Zero)));
    let g = Group::Tuple(GroupCoordinate::Field(field(vec![3])), GroupCoordinate::SignLow);
    match edwards_affine_from_value(&g) {
        Ok(Recovery::FromX(f, Some(false))) => assert_eq!(f.values, vec![3]),
        _ => panic!("x with the low sign"),
    }
}

#[test]
fn recovery_settles_on_the_asked_sign() {
    assert_eq!(edwards_affine_from_x(Some(true), Some(1), Some(2)), Ok(2));
    assert_eq!(edwards_affine_from_x(Some(false), Some(1), Some(2)), Ok(1));
    assert_eq!(edwards_affine_from_x(Some(true), Some(1), None::<i32>), Err(GroupError::XRecover));
    assert_eq!(edwards_affine_from_y(Some(false), None::<i32>, Some(2)), Err(GroupError::YRecover));
}

#[test]
fn inferred_sign_prefers_the_low_one() {
    assert_eq!(edwards_affine_from_x(None, Some(1), Some(2)), Ok(1));
    assert_eq!(edwards_affine_from_x(None, None, Some(2)), Ok(2));
    assert_eq!(edwards_affine_from_y(None, Some(5), None), Ok(5));
    assert_eq!(edwards_affine_from_x(None, None::<i32>, None), Err(GroupError::XRecover));
    assert_eq!(edwards_affine_from_y(None, None::<i32>, None), Err(GroupError::YRecover));
}
