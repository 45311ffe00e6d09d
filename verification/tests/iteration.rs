use ndarray::{indices, Dim, Dimension, IxDyn};

fn dyn_of(axes: &[usize]) -> IxDyn {
    Dim(axes)
}

#[test]
fn indices_of_a_single_element_shape_yield_the_zero_index_then_stop() {
    let mut it = indices(vec![1usize, 1]).into_iter();
    assert_eq!(it.size_hint(), (1, Some(1)));
    let first = it.next().expect("one index");
    assert_eq!(first.slice(), &[0, 0]);
    assert!(it.next().is_none());
    assert_eq!(it.size_hint(), (0, Some(0)));
    assert!(it.next().is_none());
}

#[test]
fn indices_of_a_zero_dimensional_shape_yield_one_index() {
    let mut it = indices(dyn_of(&[])).into_iter();
    assert_eq!(it.size_hint(), (1, Some(1)));
    let first = it.next().expect("one index");
    assert_eq!(first.ndim(), 0);
    assert!(it.next().is_none());
}

#[test]
fn size_hint_counts_from_the_row_major_offset() {
    let it = indices(vec![2usize, 3]).into_iter();
    assert_eq!(it.size_hint(), (6, Some(6)));
    let it3 = indices(dyn_of(&[4, 5, 6])).into_iter();
    assert_eq!(it3.size_hint(), (120, Some(120)));
}

#[test]
fn indices_start_at_zero_for_a_slice_shape() {
    let shape: &[usize] = &[3, 2];
    let it = indices(shape).into_iter();
    assert_eq!(it.size_hint(), (6, Some(6)));
}

#[test]
fn size_hint_counts_what_next_still_yields() {
    let mut it = indices(dyn_of(&[1, 1, 1])).into_iter();
    let (n, _) = it.size_hint();
    assert_eq!(n, 1);
    assert!(it.next().is_some());
    assert_eq!(it.size_hint(), (n - 1, Some(n - 1)));
    assert!(it.next().is_none());
    assert_eq!(it.size_hint(), (0, Some(0)));
}
