use ndarray::{size_of_shape_checked, Dim, Dimension, IntoDimension, IxDyn, IxDynImpl, IxDynRepr, Ix1};

fn dyn_of(axes: &[usize]) -> IxDyn {
    Dim(axes)
}

#[test]
fn zeros_has_the_asked_number_of_zero_axes() {
    let z = IxDyn::zeros(3);
    assert_eq!(z.ndim(), 3);
    assert_eq!(z.slice(), &[0, 0, 0]);
    let e = IxDyn::zeros(0);
    assert_eq!(e.ndim(), 0);
    let full = IxDyn::zeros(4);
    assert_eq!(full.slice(), &[0, 0, 0, 0]);
}

#[test]
fn trait_zeros_agrees_with_inherent_zeros() {
    let z = <IxDyn as Dimension>::zeros(2);
    assert_eq!(z.slice(), &[0, 0]);
}

#[test]
fn dim_from_slice_and_vec_keeps_axes() {
    let a = dyn_of(&[2, 3, 4]);
    assert_eq!(a.slice(), &[2, 3, 4]);
    let b: IxDyn = Dim(vec![5, 1]);
    assert_eq!(b.slice(), &[5, 1]);
    let c: IxDyn = vec![7usize].into_dimension();
    assert_eq!(c.ndim(), 1);
    let d: IxDyn = IxDynImpl::from_slice(&[1, 2]).into_dimension();
    assert_eq!(d.slice(), &[1, 2]);
}

#[test]
fn size_is_the_product_of_the_axes() {
    assert_eq!(dyn_of(&[2, 3, 4]).size(), 24);
    assert_eq!(dyn_of(&[]).size(), 1);
    assert_eq!(dyn_of(&[2, 0, 4]).size(), 0);
    assert_eq!(dyn_of(&[7]).size(), 7);
}

#[test]
fn default_strides_are_row_major() {
    let s = dyn_of(&[2, 3, 4]).default_strides();
    assert_eq!(s.slice(), &[12, 4, 1]);
    let s1 = dyn_of(&[5]).default_strides();
    assert_eq!(s1.slice(), &[1]);
    let s0 = dyn_of(&[]).default_strides();
    assert_eq!(s0.ndim(), 0);
}

#[test]
fn default_strides_of_an_empty_array_are_zero() {
    let s = dyn_of(&[2, 0, 4]).default_strides();
    assert_eq!(s.slice(), &[0, 0, 0]);
}

#[test]
fn next_for_the_last_index_is_none() {
    let dim = dyn_of(&[2, 3]);
    assert!(dim.next_for(dyn_of(&[1, 2])).is_none());
    let empty = dyn_of(&[]);
    assert!(empty.next_for(dyn_of(&[])).is_none());
}

#[test]
fn size_of_shape_checked_matches_size() {
    assert_eq!(size_of_shape_checked(&dyn_of(&[2, 3, 4])), Ok(24));
    assert_eq!(size_of_shape_checked(&dyn_of(&[2, 0, 4])), Ok(0));
    assert_eq!(size_of_shape_checked(&dyn_of(&[])), Ok(1));
    let big = usize::MAX / 2;
    assert_eq!(size_of_shape_checked(&dyn_of(&[big, 0])), Ok(0));
}

#[test]
fn into_pattern_of_a_dynamic_index_is_itself() {
    let p = dyn_of(&[3, 1]).into_pattern();
    assert_eq!(p.slice(), &[3, 1]);
}

#[test]
fn clone_keeps_the_axes() {
    let a = dyn_of(&[4, 2, 9]);
    let b = a.clone();
    assert_eq!(b.slice(), &[4, 2, 9]);
    let i = IxDynImpl::from_vec(vec![3, 3]);
    assert_eq!(&*i.clone(), &[3, 3]);
}

#[test]
fn slice_mut_writes_through() {
    let mut a = dyn_of(&[4, 2, 9]);
    a.slice_mut()[1] = 8;
    assert_eq!(a.slice(), &[4, 8, 9]);
}

#[test]
fn repr_copy_from_holds_the_slice() {
    let r = IxDynRepr::copy_from(&[6, 7, 8]);
    assert_eq!(r.deref(), &[6, 7, 8]);
    match r {
        IxDynRepr::Inline(len, arr) => {
            assert_eq!(len, 3);
            assert_eq!(arr, [6, 7, 8, 0]);
        }
        IxDynRepr::Alloc(_) => panic!("expected an inline representation"),
    }
    let e = IxDynRepr::copy_from(&[]);
    assert_eq!(e.deref().len(), 0);
}

#[test]
fn repr_deref_mut_writes_only_the_held_axes() {
    let mut r = IxDynRepr::copy_from(&[1, 2]);
    {
        let s = r.deref_mut();
        assert_eq!(s.len(), 2);
        s[0] = 10;
        s[1] = 20;
    }
    assert_eq!(r.deref(), &[10, 20]);
    let c = r.clone();
    assert_eq!(c.deref(), &[10, 20]);
}

#[test]
fn repr_of_boxed_axes_derefs_to_them() {
    let mut r: IxDynRepr<usize> = IxDynRepr::Alloc(vec![1, 2, 3, 4, 5].into_boxed_slice());
    assert_eq!(r.deref(), &[1, 2, 3, 4, 5]);
    r.deref_mut()[4] = 50;
    assert_eq!(r.deref(), &[1, 2, 3, 4, 50]);
}

#[test]
fn ix1_builds_a_one_dimensional_index() {
    let _d: Ix1 = Ix1(5);
}

#[test]
fn copy_from_pads_the_inline_slots_with_zero() {
    let r = IxDynRepr::copy_from(&[1, 2, 3]);
    match r {
        IxDynRepr::Inline(len, arr) => {
            assert_eq!(len, 3);
            assert_eq!(arr, [1, 2, 3, 0]);
        }
        IxDynRepr::Alloc(_) => panic!("expected an inline representation"),
    }
}

#[test]
fn checked_size_does_not_depend_on_axis_order() {
    assert_eq!(
        size_of_shape_checked(&dyn_of(&[2, 0, 5, 3])),
        size_of_shape_checked(&dyn_of(&[3, 5, 2, 0]))
    );
    assert_eq!(
        size_of_shape_checked(&dyn_of(&[4, 1, 6])),
        size_of_shape_checked(&dyn_of(&[6, 4, 1]))
    );
}

#[test]
fn repr_deref_mut_keeps_the_length_and_the_padding() {
    let mut r = IxDynRepr::copy_from(&[1, 2]);
    r.deref_mut()[1] = 9;
    match r {
        IxDynRepr::Inline(len, arr) => {
            assert_eq!(len, 2);
            assert_eq!(arr, [1, 9, 0, 0]);
        }
        IxDynRepr::Alloc(_) => panic!("expected an inline representation"),
    }
}
