use vstd::prelude::*;
use crate::Ix;

verus! {

/// The number of elements of an array whose axis lengths are `s`: their product,
/// taken from the first axis to the last.
pub open spec fn shape_product(s: Seq<Ix>) -> int
    decreases s.len(),
{
    if s.len() == 0 {
        1
    } else {
        shape_product(s.drop_last()) * s.last()
    }
}

/// Every running product of `s`, taken from the first axis on, fits in a `usize`.
pub open spec fn product_fits(s: Seq<Ix>) -> bool {
    forall|i: int| 0 <= i <= s.len() ==> #[trigger] shape_product(s.take(i)) <= usize::MAX
}

/// The product of the axis lengths of `s` that are not zero.
pub open spec fn nonzero_product(s: Seq<Ix>) -> int
    decreases s.len(),
{
    if s.len() == 0 {
        1
    } else if s.last() == 0 {
        nonzero_product(s.drop_last())
    } else {
        nonzero_product(s.drop_last()) * s.last()
    }
}

/// No axis of `s` has length zero.
pub open spec fn all_nonzero(s: Seq<Ix>) -> bool {
    forall|i: int| 0 <= i < s.len() ==> #[trigger] s[i] != 0
}

/// The row-major ("C order") strides of an array with axis lengths `s`: the stride of
/// an axis is the product of the lengths of the axes after it. An array with an empty
/// axis gets all strides zero.
pub open spec fn c_strides(s: Seq<Ix>) -> Seq<Ix> {
    if all_nonzero(s) {
        Seq::new(s.len(), |i: int| shape_product(s.skip(i + 1)) as Ix)
    } else {
        Seq::new(s.len(), |i: int| 0)
    }
}

/// The row-major strides of `s` can be computed in a `usize`.
pub open spec fn strides_fit(s: Seq<Ix>) -> bool {
    all_nonzero(s) && s.len() > 0 ==> shape_product(s.skip(1)) <= usize::MAX
}

/// `sum(a[k] * b[k] for k < n)`.
pub open spec fn dot_prefix(a: Seq<Ix>, b: Seq<Ix>, n: int) -> int
    decreases n,
{
    if n <= 0 {
        0
    } else {
        dot_prefix(a, b, n - 1) + a[n - 1] * b[n - 1]
    }
}

/// The smaller of two lengths.
pub open spec fn min_len(a: int, b: int) -> int {
    if a <= b {
        a
    } else {
        b
    }
}

/// The dot product of `a` and `b` over the axes that both have.
pub open spec fn dot(a: Seq<Ix>, b: Seq<Ix>) -> int {
    dot_prefix(a, b, min_len(a.len() as int, b.len() as int))
}

/// `index` is the last index of an array with axis lengths `dim`: on every axis the
/// two share, the index is one below the axis length.
pub open spec fn is_last_index(dim: Seq<Ix>, index: Seq<Ix>) -> bool {
    forall|i: int|
        0 <= i < min_len(dim.len() as int, index.len() as int) ==> #[trigger] index[i] + 1
            == dim[i]
}

/// `index` is a valid index of an array with axis lengths `dim`.
pub open spec fn in_bounds(dim: Seq<Ix>, index: Seq<Ix>) -> bool {
    &&& index.len() == dim.len()
    &&& forall|i: int| 0 <= i < dim.len() ==> #[trigger] index[i] < dim[i]
}

/// `n` axes of length zero.
pub open spec fn zero_axes(n: int) -> Seq<Ix> {
    Seq::new(n as nat, |i: int| 0)
}

/// The product of a sequence is its first axis times the product of the rest.
pub proof fn lemma_product_cons(s: Seq<Ix>)
    requires
        s.len() > 0,
    ensures
        shape_product(s) == s[0] * shape_product(s.drop_first()),
    decreases s.len(),
{
    if s.len() > 1 {
        let t = s.drop_first();
        lemma_product_cons(s.drop_last());
        assert(s.drop_last().drop_first() =~= t.drop_last());
        assert(t.last() == s.last());
        assert(s.drop_last()[0] == s[0]);
        let p = shape_product(t.drop_last());
        assert(shape_product(t) == p * s.last());
        assert(shape_product(s.drop_last()) == s[0] * p);
        assert(shape_product(s) == shape_product(s.drop_last()) * s.last());
        assert((s[0] * p) * s.last() == s[0] * (p * s.last())) by (nonlinear_arith);
    } else {
        assert(s.drop_last().len() == 0);
        assert(s.drop_first().len() == 0);
        assert(shape_product(s.drop_last()) == 1);
        assert(shape_product(s.drop_first()) == 1);
        assert(s.last() == s[0]);
    }
}

/// The product of a concatenation is the product of the products.
pub proof fn lemma_product_append(a: Seq<Ix>, b: Seq<Ix>)
    ensures
        shape_product(a + b) == shape_product(a) * shape_product(b),
    decreases b.len(),
{
    if b.len() == 0 {
        assert(a + b =~= a);
    } else {
        lemma_product_append(a, b.drop_last());
        assert((a + b).drop_last() =~= a + b.drop_last());
        assert((a + b).last() == b.last());
        assert(shape_product(a + b) == shape_product(a) * (shape_product(b.drop_last()) * b.last()))
            by (nonlinear_arith)
            requires
                shape_product(a + b) == shape_product(a + b.drop_last()) * b.last(),
                shape_product(a + b.drop_last()) == shape_product(a) * shape_product(
                    b.drop_last(),
                ),
        ;
    }
}

/// The product of axes that are all non-zero is at least one.
pub proof fn lemma_product_positive(s: Seq<Ix>)
    requires
        all_nonzero(s),
    ensures
        shape_product(s) >= 1,
    decreases s.len(),
{
    if s.len() > 0 {
        assert(all_nonzero(s.drop_last()));
        lemma_product_positive(s.drop_last());
        assert(s.last() == s[s.len() - 1]);
        assert(shape_product(s.drop_last()) * s.last() >= 1) by (nonlinear_arith)
            requires
                shape_product(s.drop_last()) >= 1,
                s.last() >= 1,
        ;
    }
}

/// With all axes non-zero, the product of the axes from `i >= 1` on is at most the
/// product of the axes from `1` on.
pub proof fn lemma_suffix_product_bounded(s: Seq<Ix>, i: int)
    requires
        all_nonzero(s),
        1 <= i <= s.len(),
    ensures
        shape_product(s.skip(i)) <= shape_product(s.skip(1)),
{
    let mid = s.subrange(1, i);
    assert(s.skip(1) =~= mid + s.skip(i));
    lemma_product_append(mid, s.skip(i));
    assert(all_nonzero(mid));
    lemma_product_positive(mid);
    assert(all_nonzero(s.skip(i)));
    lemma_product_positive(s.skip(i));
    assert(shape_product(mid) * shape_product(s.skip(i)) >= shape_product(s.skip(i)))
        by (nonlinear_arith)
        requires
            shape_product(mid) >= 1,
            shape_product(s.skip(i)) >= 1,
    ;
}

/// The partial dot products of `a` and `b` grow with the number of terms.
pub proof fn lemma_dot_prefix_monotone(a: Seq<Ix>, b: Seq<Ix>, n: int)
    ensures
        forall|j: int| 0 <= j <= n ==> #[trigger] dot_prefix(a, b, j) <= dot_prefix(a, b, n),
    decreases n,
{
    if n > 0 {
        lemma_dot_prefix_monotone(a, b, n - 1);
        assert(a[n - 1] * b[n - 1] >= 0) by (nonlinear_arith)
            requires
                a[n - 1] >= 0,
                b[n - 1] >= 0,
        ;
    }
}

/// The product of the non-zero axes is at least one.
pub proof fn lemma_nonzero_product_positive(s: Seq<Ix>)
    ensures
        nonzero_product(s) >= 1,
    decreases s.len(),
{
    if s.len() > 0 {
        lemma_nonzero_product_positive(s.drop_last());
        if s.last() != 0 {
            assert(nonzero_product(s.drop_last()) * s.last() >= 1) by (nonlinear_arith)
                requires
                    nonzero_product(s.drop_last()) >= 1,
                    s.last() >= 1,
            ;
        }
    }
}

/// The product of all axes is at most the product of the non-zero ones.
pub proof fn lemma_product_below_nonzero_product(s: Seq<Ix>)
    ensures
        shape_product(s) <= nonzero_product(s),
    decreases s.len(),
{
    if s.len() > 0 {
        let t = s.drop_last();
        lemma_product_below_nonzero_product(t);
        lemma_nonzero_product_positive(t);
        if s.last() != 0 {
            assert(shape_product(t) * s.last() <= nonzero_product(t) * s.last())
                by (nonlinear_arith)
                requires
                    shape_product(t) <= nonzero_product(t),
                    s.last() >= 0,
            ;
        } else {
            assert(shape_product(t) * s.last() == 0) by (nonlinear_arith)
                requires
                    s.last() == 0,
            ;
        }
    }
}

/// The product of the non-zero axes of a prefix is at most that of the whole.
pub proof fn lemma_nonzero_product_prefix(s: Seq<Ix>, i: int)
    requires
        0 <= i <= s.len(),
    ensures
        nonzero_product(s.take(i)) <= nonzero_product(s),
    decreases s.len() - i,
{
    if i < s.len() {
        lemma_nonzero_product_prefix(s, i + 1);
        let t = s.take(i + 1);
        assert(t.drop_last() =~= s.take(i));
        lemma_nonzero_product_positive(s.take(i));
        if t.last() != 0 {
            assert(nonzero_product(s.take(i)) * t.last() >= nonzero_product(s.take(i)))
                by (nonlinear_arith)
                requires
                    nonzero_product(s.take(i)) >= 1,
                    t.last() >= 1,
            ;
        }
    } else {
        assert(s.take(i) =~= s);
    }
}

/// When the product of the non-zero axes fits in a `usize`, so do all running products.
pub proof fn lemma_nonzero_product_fits(s: Seq<Ix>)
    requires
        nonzero_product(s) <= usize::MAX,
    ensures
        product_fits(s),
{
    assert forall|i: int| 0 <= i <= s.len() implies #[trigger] shape_product(s.take(i))
        <= usize::MAX by {
        lemma_product_below_nonzero_product(s.take(i));
        lemma_nonzero_product_prefix(s, i);
    }
}

/// Scaling one side of a dot product scales the product.
proof fn lemma_dot_prefix_scale(a: Seq<Ix>, b: Seq<Ix>, c: Seq<Ix>, e: Seq<Ix>, d: int, k: int)
    requires
        forall|i: int| 0 <= i < k ==> #[trigger] a[i] == c[i] * d && b[i] == e[i],
    ensures
        dot_prefix(a, b, k) == d * dot_prefix(c, e, k),
    decreases k,
{
    if k > 0 {
        lemma_dot_prefix_scale(a, b, c, e, d, k - 1);
        let x = a[k - 1];
        let y = b[k - 1];
        let cc = c[k - 1];
        assert(x == cc * d && y == e[k - 1]);
        assert(d * dot_prefix(c, e, k - 1) + (cc * d) * y == d * (dot_prefix(c, e, k - 1) + cc
            * y)) by (nonlinear_arith);
    }
}

/// The product of the axes after position `i` is at most the product of all axes,
/// when none is zero.
proof fn lemma_suffix_below_whole(s: Seq<Ix>, i: int)
    requires
        all_nonzero(s),
        0 <= i <= s.len(),
    ensures
        shape_product(s.skip(i)) <= shape_product(s),
{
    assert(s =~= s.take(i) + s.skip(i));
    lemma_product_append(s.take(i), s.skip(i));
    assert(all_nonzero(s.take(i)));
    assert(all_nonzero(s.skip(i)));
    lemma_product_positive(s.take(i));
    lemma_product_positive(s.skip(i));
    assert(shape_product(s.take(i)) * shape_product(s.skip(i)) >= shape_product(s.skip(i)))
        by (nonlinear_arith)
        requires
            shape_product(s.take(i)) >= 1,
            shape_product(s.skip(i)) >= 1,
    ;
}

/// An index inside a shape whose size fits in a `usize` lies inside the array: every
/// axis is non-empty, the row-major strides can be computed, and the row-major offset
/// of the index is below the number of elements.
pub proof fn lemma_offset_below_size(s: Seq<Ix>, ix: Seq<Ix>)
    requires
        in_bounds(s, ix),
        product_fits(s),
    ensures
        all_nonzero(s),
        strides_fit(s),
        dot(c_strides(s), ix) < shape_product(s),
    decreases s.len(),
{
    let n = s.len() as int;
    assert forall|i: int| 0 <= i < n implies #[trigger] s[i] != 0 by {
        assert(ix[i] < s[i]);
    }
    assert(s.take(n) =~= s);
    assert(shape_product(s) <= usize::MAX);
    if n == 0 {
        assert(dot(c_strides(s), ix) == 0);
    } else {
        let t = s.drop_last();
        let u = ix.drop_last();
        let d = s.last() as int;
        let x = ix.last() as int;
        assert(all_nonzero(t));
        lemma_product_positive(t);
        assert(shape_product(s) == shape_product(t) * d);
        assert(shape_product(t) <= shape_product(t) * d) by (nonlinear_arith)
            requires
                shape_product(t) >= 1,
                d >= 1,
        ;
        assert forall|i: int| 0 <= i <= t.len() implies #[trigger] shape_product(t.take(i))
            <= usize::MAX by {
            assert(t.take(i) =~= s.take(i));
        }
        assert(in_bounds(t, u));
        lemma_offset_below_size(t, u);
        let cs = c_strides(s);
        let ct = c_strides(t);
        assert forall|i: int| 0 <= i < n - 1 implies #[trigger] cs[i] == ct[i] * d && ix[i]
            == u[i] by {
            assert(s.skip(i + 1).drop_last() =~= t.skip(i + 1));
            assert(s.skip(i + 1).last() == s.last());
            lemma_suffix_below_whole(s, i + 1);
            lemma_suffix_below_whole(t, i + 1);
            lemma_product_positive(t.skip(i + 1));
            assert(shape_product(s.skip(i + 1)) == shape_product(t.skip(i + 1)) * d);
        }
        lemma_dot_prefix_scale(cs, ix, ct, u, d, n - 1);
        assert(s.skip(n).len() == 0);
        assert(cs[n - 1] == 1);
        assert(dot(cs, ix) == dot_prefix(cs, ix, n - 1) + x);
        assert(dot(ct, u) == dot_prefix(ct, u, n - 1));
        assert(x < d);
        let pt = shape_product(t);
        let dt = dot_prefix(ct, u, n - 1);
        lemma_dot_prefix_monotone(ct, u, n - 1);
        assert(dot_prefix(ct, u, 0) == 0);
        assert(d * dt + x < pt * d) by (nonlinear_arith)
            requires
                dt < pt,
                0 <= x < d,
                dt >= 0,
        ;
        lemma_suffix_below_whole(s, 1);
    }
}

/// The row-major strides of a shape with no empty axis, whose size fits in a `usize`:
/// the last stride is one, and each other stride is the next one times the length of
/// the next axis.
pub proof fn lemma_c_strides_recurrence(s: Seq<Ix>)
    requires
        all_nonzero(s),
        product_fits(s),
        s.len() > 0,
    ensures
        c_strides(s)[s.len() - 1] == 1,
        forall|i: int|
            0 <= i < s.len() - 1 ==> #[trigger] c_strides(s)[i] == c_strides(s)[i + 1] * s[i + 1],
{
    let n = s.len() as int;
    assert(s.take(n) =~= s);
    assert(shape_product(s.take(n)) <= usize::MAX);
    assert(s.skip(n).len() == 0);
    assert forall|i: int| 0 <= i < n - 1 implies #[trigger] c_strides(s)[i] == c_strides(s)[i
        + 1] * s[i + 1] by {
        lemma_product_cons(s.skip(i + 1));
        assert(s.skip(i + 1).drop_first() =~= s.skip(i + 2));
        assert(s.skip(i + 1)[0] == s[i + 1]);
        lemma_suffix_below_whole(s, i + 1);
        lemma_suffix_below_whole(s, i + 2);
        let p = shape_product(s.skip(i + 2));
        assert(s[i + 1] * p == p * s[i + 1]) by (nonlinear_arith);
        assert(all_nonzero(s.skip(i + 1)));
        assert(all_nonzero(s.skip(i + 2)));
        lemma_product_positive(s.skip(i + 1));
        lemma_product_positive(s.skip(i + 2));
        assert(shape_product(s.skip(i + 1)) <= usize::MAX);
        assert(p <= usize::MAX);
        assert(c_strides(s)[i] == shape_product(s.skip(i + 1)));
        assert(c_strides(s)[i + 1] == p);
    }
}

/// The product of the axes is zero exactly when some axis is empty.
pub proof fn lemma_product_zero(s: Seq<Ix>)
    ensures
        shape_product(s) == 0 <==> !all_nonzero(s),
    decreases s.len(),
{
    if s.len() > 0 {
        let t = s.drop_last();
        lemma_product_zero(t);
        if all_nonzero(s) {
            lemma_product_positive(s);
        } else if all_nonzero(t) {
            let i = choose|i: int| 0 <= i < s.len() && s[i] == 0;
            if i < s.len() - 1 {
                assert(t[i] == 0);
            }
            assert(s.last() == 0);
            assert(shape_product(t) * 0 == 0) by (nonlinear_arith);
        } else {
            assert(shape_product(t) == 0);
            assert(0 * s.last() == 0) by (nonlinear_arith);
        }
    }
}

/// A dot product with the index of all zeros is zero.
proof fn lemma_dot_prefix_zero(a: Seq<Ix>, b: Seq<Ix>, k: int)
    requires
        forall|i: int| 0 <= i < k ==> #[trigger] b[i] == 0,
    ensures
        dot_prefix(a, b, k) == 0,
    decreases k,
{
    if k > 0 {
        lemma_dot_prefix_zero(a, b, k - 1);
        assert(a[k - 1] * 0 == 0) by (nonlinear_arith);
    }
}

/// The index of all zeros lies inside every shape of non-zero size, and its row-major
/// offset is zero: a walk that starts there has every element still ahead of it.
pub proof fn lemma_zero_index_in_bounds(s: Seq<Ix>)
    requires
        shape_product(s) != 0,
    ensures
        in_bounds(s, zero_axes(s.len() as int)),
        dot(c_strides(s), zero_axes(s.len() as int)) == 0,
{
    lemma_product_zero(s);
    let z = zero_axes(s.len() as int);
    lemma_dot_prefix_zero(c_strides(s), z, s.len() as int);
}

/// The factor that an axis contributes to `nonzero_product`.
pub open spec fn nonzero_factor(x: Ix) -> int {
    if x == 0 {
        1
    } else {
        x as int
    }
}

/// The non-zero product of a sequence is that of all but its last axis, times what the
/// last axis contributes.
proof fn lemma_nonzero_product_step(s: Seq<Ix>)
    requires
        s.len() > 0,
    ensures
        nonzero_product(s) == nonzero_product(s.drop_last()) * nonzero_factor(s.last()),
{
    if s.last() == 0 {
        assert(nonzero_product(s.drop_last()) * 1 == nonzero_product(s.drop_last()));
    }
}

/// The non-zero product of a sequence is its first factor times that of the rest.
proof fn lemma_nonzero_product_cons(s: Seq<Ix>)
    requires
        s.len() > 0,
    ensures
        nonzero_product(s) == nonzero_factor(s[0]) * nonzero_product(s.drop_first()),
    decreases s.len(),
{
    if s.len() > 1 {
        let t = s.drop_first();
        lemma_nonzero_product_cons(s.drop_last());
        assert(s.drop_last().drop_first() =~= t.drop_last());
        assert(t.last() == s.last());
        assert(s.drop_last()[0] == s[0]);
        let p = nonzero_product(t.drop_last());
        let f = nonzero_factor(s.last());
        let g = nonzero_factor(s[0]);
        lemma_nonzero_product_step(t);
        lemma_nonzero_product_step(s);
        lemma_nonzero_product_step(s.drop_last());
        assert(nonzero_product(t) == p * f);
        assert(nonzero_product(s.drop_last()) == g * p);
        assert(nonzero_product(s) == nonzero_product(s.drop_last()) * f);
        assert((g * p) * f == g * (p * f)) by (nonlinear_arith);
    } else {
        assert(s.drop_last().len() == 0);
        assert(s.drop_first().len() == 0);
        assert(s.last() == s[0]);
        lemma_nonzero_product_step(s);
        let f = nonzero_factor(s[0]);
        assert(1 * f == f * 1);
    }
}

/// The non-zero product of a concatenation is the product of the two.
proof fn lemma_nonzero_product_append(a: Seq<Ix>, b: Seq<Ix>)
    ensures
        nonzero_product(a + b) == nonzero_product(a) * nonzero_product(b),
    decreases b.len(),
{
    if b.len() == 0 {
        assert(a + b =~= a);
    } else {
        lemma_nonzero_product_append(a, b.drop_last());
        assert((a + b).drop_last() =~= a + b.drop_last());
        assert((a + b).last() == b.last());
        let f = nonzero_factor(b.last());
        lemma_nonzero_product_step(a + b);
        lemma_nonzero_product_step(b);
        assert(nonzero_product(a + b) == nonzero_product(a + b.drop_last()) * f);
        assert(nonzero_product(b) == nonzero_product(b.drop_last()) * f);
        let pa = nonzero_product(a);
        let pb = nonzero_product(b.drop_last());
        assert((pa * pb) * f == pa * (pb * f)) by (nonlinear_arith);
    }
}

/// Taking out the axis at position `k` divides both products by what it contributed.
proof fn lemma_products_remove(s: Seq<Ix>, k: int)
    requires
        0 <= k < s.len(),
    ensures
        shape_product(s) == shape_product(s.remove(k)) * s[k],
        nonzero_product(s) == nonzero_product(s.remove(k)) * nonzero_factor(s[k]),
{
    let a = s.take(k);
    let b = s.skip(k);
    let c = s.skip(k + 1);
    assert(s =~= a + b);
    assert(s.remove(k) =~= a + c);
    assert(b.drop_first() =~= c);
    assert(b[0] == s[k]);
    lemma_product_append(a, b);
    lemma_product_append(a, c);
    lemma_product_cons(b);
    lemma_nonzero_product_append(a, b);
    lemma_nonzero_product_append(a, c);
    lemma_nonzero_product_cons(b);
    let x = s[k] as int;
    let f = nonzero_factor(s[k]);
    let pa = shape_product(a);
    let pc = shape_product(c);
    let na = nonzero_product(a);
    let nc = nonzero_product(c);
    assert(pa * (x * pc) == (pa * pc) * x) by (nonlinear_arith);
    assert(na * (f * nc) == (na * nc) * f) by (nonlinear_arith);
}

/// Reordering the axes changes neither the number of elements nor the product of the
/// non-zero axes.
pub proof fn lemma_products_order_free(s1: Seq<Ix>, s2: Seq<Ix>)
    requires
        s1.to_multiset() == s2.to_multiset(),
    ensures
        shape_product(s1) == shape_product(s2),
        nonzero_product(s1) == nonzero_product(s2),
    decreases s1.len(),
{
    broadcast use vstd::seq_lib::group_to_multiset_ensures;
    broadcast use vstd::multiset::group_multiset_axioms;

    if s1.len() == 0 {
        assert(s2.to_multiset().len() == 0);
        assert(s2.len() == 0);
        assert(s1 =~= s2);
    } else {
        let t = s1.drop_last();
        let x = s1.last();
        assert(t.push(x) =~= s1);
        assert(s1.to_multiset() =~= t.to_multiset().insert(x));
        assert(s2.to_multiset().count(x) > 0);
        assert(s2.contains(x));
        let k = choose|k: int| 0 <= k < s2.len() && s2[k] == x;
        let u = s2.remove(k);
        assert(u.to_multiset() =~= s2.to_multiset().remove(x));
        assert(u.to_multiset() =~= t.to_multiset());
        lemma_products_order_free(t, u);
        lemma_products_remove(s2, k);
    }
}

/// The row-major offset of an index splits at the last axis: the offset of the rest
/// within the shape without the last axis, times that axis's length, plus the last
/// coordinate.
proof fn lemma_dot_split_last(s: Seq<Ix>, ix: Seq<Ix>)
    requires
        ix.len() == s.len(),
        s.len() > 0,
        all_nonzero(s),
        shape_product(s) <= usize::MAX,
    ensures
        dot(c_strides(s), ix) == s.last() * dot(c_strides(s.drop_last()), ix.drop_last())
            + ix.last(),
{
    let n = s.len() as int;
    let t = s.drop_last();
    let u = ix.drop_last();
    let d = s.last() as int;
    assert(all_nonzero(t));
    let cs = c_strides(s);
    let ct = c_strides(t);
    assert forall|i: int| 0 <= i < n - 1 implies #[trigger] cs[i] == ct[i] * d && ix[i]
        == u[i] by {
        assert(s.skip(i + 1).drop_last() =~= t.skip(i + 1));
        assert(s.skip(i + 1).last() == s.last());
        lemma_suffix_below_whole(s, i + 1);
        lemma_product_positive(t.skip(i + 1));
        assert(shape_product(s.skip(i + 1)) == shape_product(t.skip(i + 1)) * d);
        assert(shape_product(t.skip(i + 1)) <= shape_product(t.skip(i + 1)) * d)
            by (nonlinear_arith)
            requires
                shape_product(t.skip(i + 1)) >= 1,
                d >= 1,
        ;
    }
    lemma_dot_prefix_scale(cs, ix, ct, u, d, n - 1);
    assert(s.skip(n).len() == 0);
    assert(cs[n - 1] == 1);
    assert(cs.len() == n);
    assert(min_len(cs.len() as int, ix.len() as int) == n);
    assert(ix.last() == ix[n - 1]);
    assert(dot_prefix(cs, ix, n) == dot_prefix(cs, ix, n - 1) + cs[n - 1] * ix[n - 1]);
    assert(dot(cs, ix) == dot_prefix(cs, ix, n - 1) + ix.last());
    assert(dot(ct, u) == dot_prefix(ct, u, n - 1));
}

/// The last index of a shape lies at row-major offset `size - 1`: exactly one element
/// is left from there on.
pub proof fn lemma_last_index_offset(s: Seq<Ix>, ix: Seq<Ix>)
    requires
        ix.len() == s.len(),
        is_last_index(s, ix),
        product_fits(s),
    ensures
        all_nonzero(s),
        dot(c_strides(s), ix) == shape_product(s) - 1,
    decreases s.len(),
{
    let n = s.len() as int;
    assert forall|i: int| 0 <= i < n implies #[trigger] s[i] != 0 by {
        assert(ix[i] + 1 == s[i]);
    }
    assert(s.take(n) =~= s);
    assert(shape_product(s) <= usize::MAX);
    if n == 0 {
        assert(dot(c_strides(s), ix) == 0);
    } else {
        let t = s.drop_last();
        let u = ix.drop_last();
        let d = s.last() as int;
        assert(all_nonzero(t));
        lemma_product_positive(t);
        assert(shape_product(s) == shape_product(t) * d);
        assert(shape_product(t) <= shape_product(t) * d) by (nonlinear_arith)
            requires
                shape_product(t) >= 1,
                d >= 1,
        ;
        assert forall|i: int| 0 <= i <= t.len() implies #[trigger] shape_product(t.take(i))
            <= usize::MAX by {
            assert(t.take(i) =~= s.take(i));
        }
        assert forall|i: int| 0 <= i < min_len(t.len() as int, u.len() as int) implies #[trigger] u[i]
            + 1 == t[i] by {
            assert(ix[i] + 1 == s[i]);
        }
        lemma_last_index_offset(t, u);
        lemma_dot_split_last(s, ix);
        assert(ix[n - 1] + 1 == s[n - 1]);
        let pt = shape_product(t);
        assert(d * (pt - 1) + (d - 1) == pt * d - 1) by (nonlinear_arith);
    }
}

} // verus!
