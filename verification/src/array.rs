use vstd::prelude::*;

verus! {

/// Owned storage of the elements of an array.
pub struct OwnedRepr<A> {
    it: Vec<A>,
}

impl<A> OwnedRepr<A> {
    /// The stored elements.
    pub closed spec fn elements(&self) -> Seq<A> {
        self.it@
    }

    /// Storage that holds `v`.
    pub(crate) fn from(v: Vec<A>) -> (r: Self)
        ensures
            r.elements() == v@,
    {
        Self { it: v }
    }

    /// The stored elements as a slice.
    pub(crate) fn as_slice(&self) -> (r: &[A])
        ensures
            r@ == self.elements(),
    {
        self.it.as_slice()
    }
}

/// A vector of clones of the items of `s`, in order.
fn slice_to_owned<A: Clone>(s: &[A]) -> (r: Vec<A>)
    ensures
        r@.len() == s@.len(),
        forall|i: int| 0 <= i < s@.len() ==> cloned::<A>(s@[i], #[trigger] r@[i]),
{
    let mut r: Vec<A> = Vec::new();
    let n = s.len();
    let mut i: usize = 0;
    while i < n
        invariant
            n == s@.len(),
            i <= n,
            r@.len() == i,
            forall|k: int| 0 <= k < i ==> cloned::<A>(s@[k], #[trigger] r@[k]),
        decreases n - i,
    {
        let c = s[i].clone();
        r.push(c);
        i += 1;
    }
    r
}

impl<A: Clone> Clone for OwnedRepr<A> {
    fn clone(&self) -> (r: Self)
        ensures
            r.elements().len() == self.elements().len(),
            forall|i: int|
                0 <= i < self.elements().len() ==> cloned::<A>(
                    self.elements()[i],
                    #[trigger] r.elements()[i],
                ),
    {
        Self::from(slice_to_owned(self.as_slice()))
    }
}

/// Storage of the elements of an array.
pub trait RawData: Sized {
    type Elem;

    /// The stored elements.
    spec fn elems(&self) -> Seq<Self::Elem>;
}

/// Storage that can be cloned together with a position in it.
pub trait RawDataClone: RawData {
    /// `self` is a clone of `original`.
    spec fn is_clone_of(&self, original: &Self) -> bool;

    /// A clone of the storage, and the position in it that corresponds to `ptr` in
    /// `self` (the start, for elements of size zero).
    fn clone_with_ptr(&self, ptr: usize) -> (r: (Self, usize))
        ensures
            r.0.is_clone_of(self),
            r.1 == (if vstd::layout::size_of::<Self::Elem>() != 0 {
                ptr
            } else {
                0
            }),
    ;
}

/// Storage whose elements can be read.
pub trait Data: RawData {

}

/// Storage that owns its elements.
pub trait DataOwned: Data {
    /// Storage that holds `elements`.
    fn new(elements: Vec<Self::Elem>) -> (r: Self)
        ensures
            r.elems() == elements@,
    ;
}

impl<A> RawData for OwnedRepr<A> {
    type Elem = A;

    open spec fn elems(&self) -> Seq<A> {
        self.elements()
    }
}

impl<A> Data for OwnedRepr<A> {

}

impl<A: Clone> RawDataClone for OwnedRepr<A> {
    open spec fn is_clone_of(&self, original: &Self) -> bool {
        &&& self.elements().len() == original.elements().len()
        &&& forall|i: int|
            0 <= i < original.elements().len() ==> cloned::<A>(
                original.elements()[i],
                #[trigger] self.elements()[i],
            )
    }

    fn clone_with_ptr(&self, ptr: usize) -> (r: (Self, usize))
        ensures
            r.0.elements().len() == self.elements().len(),
            forall|i: int|
                0 <= i < self.elements().len() ==> cloned::<A>(
                    self.elements()[i],
                    #[trigger] r.0.elements()[i],
                ),
    {
        let u = self.clone();
        let mut new_ptr: usize = 0;
        if core::mem::size_of::<A>() != 0 {
            let our_off = ptr;
            new_ptr = new_ptr + our_off;
        }
        (u, new_ptr)
    }
}

impl<A> DataOwned for OwnedRepr<A> {
    fn new(elements: Vec<A>) -> (r: Self)
        ensures
            r.elements() == elements@,
    {
        OwnedRepr::from(elements)
    }
}

/// Owned storage holds its elements in order, and a clone of it holds, at each
/// position, a clone of the element at that position.
pub proof fn lemma_owned_storage<A: Clone>(a: OwnedRepr<A>, b: OwnedRepr<A>)
    ensures
        a.elems() == a.elements(),
        b.is_clone_of(&a) <==> {
            &&& b.elements().len() == a.elements().len()
            &&& forall|i: int|
                0 <= i < a.elements().len() ==> cloned::<A>(
                    a.elements()[i],
                    #[trigger] b.elements()[i],
                )
        },
{
}

/// The elements of an array are those of its storage, in storage order.
pub proof fn lemma_array_elems<S: RawData>(a: ArrayBase<S>)
    ensures
        a.elems() == a.storage().elems(),
{
}

/// An array: its storage `data`, and `ptr`, the position in the storage of its first
/// element.
pub struct ArrayBase<S: RawData> {
    data: S,
    ptr: usize,
}

/// An array that owns its elements.
pub type Array<A> = ArrayBase<OwnedRepr<A>>;

impl<S: RawData> ArrayBase<S> {
    /// The elements held by the storage.
    pub closed spec fn elems(&self) -> Seq<S::Elem> {
        self.data.elems()
    }

    /// The storage.
    pub closed spec fn storage(&self) -> S {
        self.data
    }

    /// The position of the first element in the storage.
    pub closed spec fn offset(&self) -> usize {
        self.ptr
    }

    /// The array over `data` that starts at position `ptr`.
    pub(crate) fn from_data_ptr(data: S, ptr: usize) -> (r: Self)
        ensures
            r.storage() == data,
            r.elems() == data.elems(),
            r.offset() == ptr,
    {
        let array = ArrayBase { data, ptr };
        array
    }

    /// The same array, with its shape and strides settled.
    pub(crate) fn with_strides_dim(self) -> (r: Self)
        ensures
            r.storage() == self.storage(),
            r.elems() == self.elems(),
            r.offset() == self.offset(),
    {
        ArrayBase { data: self.data, ptr: self.ptr }
    }
}

impl<S: RawDataClone> Clone for ArrayBase<S> {
    fn clone(&self) -> (r: Self)
        ensures
            r.storage().is_clone_of(&self.storage()),
            r.offset() == (if vstd::layout::size_of::<S::Elem>() != 0 {
                self.offset()
            } else {
                0
            }),
    {
        let (data, ptr) = self.data.clone_with_ptr(self.ptr);
        ArrayBase { data, ptr }
    }
}

impl<S: DataOwned> ArrayBase<S> {
    /// The one-dimensional array of `shape` elements whose element `i` is `f(i)`.
    pub fn from_shape_fn<F>(shape: usize, f: F) -> (r: Self)
        where
            F: FnMut(usize) -> S::Elem,
        requires
            forall|i: usize| i < shape ==> call_requires(f, (i,)),
        ensures
            r.elems().len() == shape,
            forall|i: int| 0 <= i < shape ==> call_ensures(f, (i as usize,), #[trigger] r.elems()[i]),
            r.offset() == 0,
    {
        let v = to_vec_mapped(0..shape, f);
        assert forall|i: int| 0 <= i < shape implies call_ensures(
            f,
            (i as usize,),
            #[trigger] v@[i],
        ) by {
            let x = choose|x: usize| #[trigger] (0..shape).yields(i, x) && call_ensures(f, (x,), v@[i]);
        }
        Self::from_shape_vec_unchecked(shape, v)
    }

    /// The one-dimensional array of the elements of `v`; `shape` is its length.
    pub fn from_shape_vec_unchecked(shape: usize, v: Vec<S::Elem>) -> (r: Self)
        ensures
            r.elems() == v@,
            r.offset() == 0,
    {
        Self::from_vec_dim_stride_unchecked(shape, v)
    }

    /// The array over the storage of `v`, starting at its first element.
    fn from_vec_dim_stride_unchecked(shape: usize, v: Vec<S::Elem>) -> (r: Self)
        ensures
            r.elems() == v@,
            r.offset() == 0,
    {
        let ptr: usize = 0;
        ArrayBase::from_data_ptr(DataOwned::new(v), ptr).with_strides_dim()
    }
}

/// An iterator that yields exactly the items it reports: `next` hands them out one by
/// one, in order, and then only `None`.
pub trait TrustedIterator: Sized {
    type Item;

    /// `next` can be called on `self`, and on what each call leaves.
    spec fn walkable(&self) -> bool;

    /// How many items are still to come.
    spec fn remaining_len(&self) -> nat;

    /// `item` is the item `k` places ahead (`0` is the next one).
    spec fn yields(&self, k: int, item: Self::Item) -> bool;

    /// The next item, if one is left.
    fn next(&mut self) -> (r: Option<Self::Item>)
        requires
            old(self).walkable(),
        ensures
            final(self).walkable(),
            old(self).remaining_len() == 0 ==> r is None && final(self).remaining_len() == 0,
            old(self).remaining_len() > 0 ==> (r matches Some(x) && old(self).yields(0, x)),
            old(self).remaining_len() > 0 ==> final(self).remaining_len() == old(
                self,
            ).remaining_len() - 1,
            old(self).remaining_len() > 0 ==> forall|k: int, y: Self::Item|
                0 <= k ==> (#[trigger] final(self).yields(k, y) <==> old(self).yields(k + 1, y)),
    ;
}

/// The items of a range: its integers from `start` up to `end`, in increasing order.
impl TrustedIterator for core::ops::Range<usize> {
    type Item = usize;

    open spec fn walkable(&self) -> bool {
        true
    }

    open spec fn remaining_len(&self) -> nat {
        if self.start < self.end {
            (self.end - self.start) as nat
        } else {
            0
        }
    }

    open spec fn yields(&self, k: int, item: usize) -> bool {
        0 <= k < self.remaining_len() && item == self.start + k
    }

    fn next(&mut self) -> (r: Option<usize>) {
        proof {
            broadcast use vstd::std_specs::range::axiom_spec_range_next_usize;

        }
        core::iter::Iterator::next(self)
    }
}

/// `v` is a value that `f` can give on the item `k` places ahead in `iter`.
pub open spec fn yields_mapped<I: TrustedIterator, F: FnMut(I::Item) -> B, B>(
    iter: I,
    f: F,
    k: int,
    v: B,
) -> bool {
    exists|x: I::Item| #[trigger] iter.yields(k, x) && call_ensures(f, (x,), v)
}

/// The values of `f` on the items of `iter`, in order.
pub fn to_vec_mapped<I, F, B>(iter: I, mut f: F) -> (r: Vec<B>)
    where
        I: TrustedIterator,
        F: FnMut(I::Item) -> B,
    requires
        iter.walkable(),
        forall|k: int, x: I::Item|
            0 <= k < iter.remaining_len() && #[trigger] iter.yields(k, x) ==> call_requires(
                f,
                (x,),
            ),
    ensures
        r@.len() == iter.remaining_len(),
        forall|k: int|
            0 <= k < r@.len() ==> yields_mapped(iter, f, k, #[trigger] r@[k]),
{
    let ghost f0 = f;
    let ghost start = iter;
    let mut iter = iter;
    let mut result: Vec<B> = Vec::new();
    loop
        invariant_except_break
            forall|k: int, y: I::Item|
                0 <= k ==> (#[trigger] iter.yields(k, y) <==> start.yields(k + result@.len(), y)),
        invariant
            f == f0,
            iter.walkable(),
            forall|k: int, x: I::Item|
                0 <= k < start.remaining_len() && #[trigger] start.yields(k, x) ==> call_requires(
                    f,
                    (x,),
                ),
            result@.len() + iter.remaining_len() == start.remaining_len(),
            forall|k: int|
                0 <= k < result@.len() ==> yields_mapped(start, f, k, #[trigger] result@[k]),
        ensures
            iter.remaining_len() == 0,
            result@.len() == start.remaining_len(),
            forall|k: int|
                0 <= k < result@.len() ==> yields_mapped(start, f0, k, #[trigger] result@[k]),
        decreases iter.remaining_len(),
    {
        let ghost before = result@;
        match iter.next() {
            Some(x) => {
                let ghost n = result@.len() as int;
                assert(start.yields(n, x));
                let v = f(x);
                result.push(v);
                assert forall|k: int| 0 <= k < result@.len() implies yields_mapped(
                    start,
                    f,
                    k,
                    #[trigger] result@[k],
                ) by {
                    if k < n {
                        assert(result@[k] == before[k]);
                    } else {
                        assert(start.yields(k, x) && call_ensures(f, (x,), result@[k]));
                    }
                }
            },
            None => {
                break ;
            },
        }
    }
    result
}

} // verus!
