use vstd::prelude::*;
use crate::Ix;

verus! {

/// How many axes an index stored inline can hold.
pub const CAP: usize = 4;

/// Storage of a dynamic-dimensional index: inline up to `CAP` axes, boxed beyond.
pub enum IxDynRepr<T> {
    Inline(u32, [T; CAP]),
    Alloc(Box<[T]>),
}

impl<T> IxDynRepr<T> {
    /// The representation is sound: an inline length never exceeds the inline capacity.
    pub open spec fn wf(&self) -> bool {
        match self {
            IxDynRepr::Inline(len, _) => *len as int <= CAP,
            IxDynRepr::Alloc(_) => true,
        }
    }

    /// The axes that the representation holds.
    pub open spec fn axes(&self) -> Seq<T> {
        match self {
            IxDynRepr::Inline(len, ar) => ar@.take(*len as int),
            IxDynRepr::Alloc(ar) => ar@,
        }
    }
}

/// `num_traits::Zero::zero` for the index type.
#[verifier::external_body]
fn ix_zero() -> (z: Ix)
    ensures
        z == 0,
{
    <Ix as num_traits::Zero>::zero()
}

/// The first `mid` items of `s`, borrowed mutably: `<[T]>::split_at_mut`, which
/// panics only when `mid` exceeds the length, keeping the first half. A slice keeps its
/// length, so what the borrow ends with still has `mid` items.
#[verifier::external_body]
fn prefix_mut<T>(s: &mut [T], mid: usize) -> (r: &mut [T])
    requires
        mid <= old(s)@.len(),
    ensures
        r@ == old(s)@.take(mid as int),
        final(r)@.len() == mid,
        final(s)@ == final(r)@ + old(s)@.skip(mid as int),
    no_unwind
{
    s.split_at_mut(mid).0
}

impl IxDynRepr<Ix> {
    /// Copies `x` into a new inline representation.
    pub fn copy_from(x: &[Ix]) -> (r: Self)
        requires
            x@.len() <= CAP,
        ensures
            r.wf(),
            r is Inline,
            r.axes() == x@,
            r matches IxDynRepr::Inline(len, arr) && len == x@.len() && (forall|j: int|
                0 <= j < x@.len() ==> #[trigger] arr@[j] == x@[j]) && (forall|j: int|
                x@.len() <= j < CAP ==> #[trigger] arr@[j] == 0),
    {
        let z = ix_zero();
        let mut arr: [Ix; CAP] = [z; CAP];
        proof {
            broadcast use vstd::array::axiom_spec_array_fill_for_copy_type;

            assert(arr == vstd::array::spec_array_fill_for_copy_type::<Ix, CAP>(z));
            assert(forall|k: int| 0 <= k < CAP ==> arr@[k] == 0);
        }
        let n = x.len();
        let mut i: usize = 0;
        while i < n
            invariant
                n == x@.len(),
                n <= CAP,
                i <= n,
                forall|k: int| 0 <= k < i ==> arr@[k] == x@[k],
                forall|k: int| i <= k < CAP ==> arr@[k] == 0,
            decreases n - i,
        {
            arr[i] = x[i];
            i += 1;
        }
        assert(arr@.take(n as int) =~= x@);
        IxDynRepr::Inline(n as u32, arr)
    }
}

impl<T> IxDynRepr<T> {
    /// The held axes as a slice.
    pub fn deref(&self) -> (r: &[T])
        requires
            self.wf(),
        ensures
            r@ == self.axes(),
    {
        match self {
            IxDynRepr::Inline(len, ar) => {
                let s: &[T] = ar;
                &s[0..(*len as usize)]
            },
            IxDynRepr::Alloc(ar) => ar,
        }
    }

    /// The held axes as a mutable slice: what is written through it is what the
    /// representation holds afterwards.
    pub fn deref_mut(&mut self) -> (r: &mut [T])
        requires
            old(self).wf(),
        ensures
            r@ == old(self).axes(),
            final(self).wf(),
            (*old(self) is Inline) <==> (*final(self) is Inline),
            final(self).axes() == final(r)@,
            *old(self) matches IxDynRepr::Inline(len, arr) ==> *final(self) matches IxDynRepr::Inline(
                len2,
                arr2,
            ) && len2 == len && arr2@ == final(r)@ + arr@.skip(len as int),
        no_unwind
    {
        match self {
            IxDynRepr::Inline(len, ar) => {
                let s: &mut [T] = ar;
                prefix_mut(s, *len as usize)
            },
            IxDynRepr::Alloc(ar) => ar,
        }
    }
}

impl IxDynRepr<Ix> {
    /// Builds the representation of the axes held by `v`.
    fn from_vec_auto(v: Vec<Ix>) -> (r: Self)
        requires
            v@.len() <= CAP,
        ensures
            r.wf(),
            r is Inline,
            r.axes() == v@,
    {
        Self::copy_from(v.as_slice())
    }
}

impl<T: Copy> IxDynRepr<T> {
    /// A copy of an inline representation.
    pub fn clone(&self) -> (r: Self)
        requires
            self is Inline,
        ensures
            r == *self,
    {
        match *self {
            IxDynRepr::Inline(len, arr) => IxDynRepr::Inline(len, arr),
            IxDynRepr::Alloc(_) => vstd::pervasive::unreached(),
        }
    }
}

/// The axes of a dynamic-dimensional index.
pub struct IxDynImpl(IxDynRepr<Ix>);

impl IxDynImpl {
    #[verifier::type_invariant]
    closed spec fn inv(self) -> bool {
        self.0.wf() && self.0 is Inline
    }

    /// Builds the index that holds the axes `ix`.
    pub fn from_slice(ix: &[Ix]) -> (r: Self)
        requires
            ix@.len() <= CAP,
        ensures
            r@ == ix@,
    {
        IxDynImpl(IxDynRepr::copy_from(ix))
    }

    /// Builds the index that holds the axes `ix`.
    pub fn from_vec(ix: Vec<Ix>) -> (r: Self)
        requires
            ix@.len() <= CAP,
        ensures
            r@ == ix@,
    {
        IxDynImpl(IxDynRepr::from_vec_auto(ix))
    }
}

impl View for IxDynImpl {
    type V = Seq<Ix>;

    closed spec fn view(&self) -> Seq<Ix> {
        self.0.axes()
    }
}

impl Clone for IxDynImpl {
    fn clone(&self) -> (r: Self)
        ensures
            r@ == self@,
    {
        proof {
            use_type_invariant(self);
        }
        IxDynImpl(self.0.clone())
    }
}

impl core::ops::Deref for IxDynImpl {
    type Target = [Ix];

    fn deref(&self) -> (r: &[Ix])
        ensures
            r@ == self@,
    {
        proof {
            use_type_invariant(self);
        }
        self.0.deref()
    }
}

impl core::ops::DerefMut for IxDynImpl {
    fn deref_mut(&mut self) -> (r: &mut [Ix])
        ensures
            r@ == old(self)@,
            final(self)@ == final(r)@,
    {
        proof {
            use_type_invariant(&*self);
        }
        self.0.deref_mut()
    }
}

} // verus!
