use ndarray::{indices, to_vec_mapped, Array, DataOwned, Dimension, IxDyn, OwnedRepr, RawDataClone};

#[test]
fn to_vec_mapped_applies_f_in_order() {
    assert_eq!(to_vec_mapped(0..4, |i| i * 2), vec![0, 2, 4, 6]);
    assert_eq!(to_vec_mapped(3..5, |i| i + 100), vec![103, 104]);
    let empty: Vec<usize> = to_vec_mapped(5..5, |i| i);
    assert!(empty.is_empty());
}

#[test]
fn from_shape_fn_calls_f_once_per_element_in_order() {
    let mut calls = Vec::new();
    let _a: Array<usize> = Array::from_shape_fn(3, |i| {
        calls.push(i);
        i * i
    });
    assert_eq!(calls, vec![0, 1, 2]);
}

#[test]
fn clone_with_ptr_keeps_the_position() {
    let repr: OwnedRepr<u32> = DataOwned::new(vec![1, 2, 3]);
    let (_copy, ptr) = repr.clone_with_ptr(2);
    assert_eq!(ptr, 2);
}

#[test]
fn clone_with_ptr_of_zero_sized_elements_starts_at_zero() {
    let repr: OwnedRepr<()> = DataOwned::new(vec![(), ()]);
    let (_copy, ptr) = repr.clone_with_ptr(1);
    assert_eq!(ptr, 0);
}

#[test]
fn arrays_clone() {
    let a: Array<String> = Array::from_shape_vec_unchecked(2, vec!["x".to_string(), "y".to_string()]);
    let _b = a.clone();
}

#[test]
fn to_vec_mapped_walks_the_indices() {
    let v = to_vec_mapped(indices(vec![1usize, 1]).into_iter(), |p: IxDyn| p.ndim() + p.slice()[0]);
    assert_eq!(v, vec![2]);
}
