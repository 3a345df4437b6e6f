//! The arithmetic of tensor shapes: a shape is a sequence of dimension sizes.

use vstd::prelude::*;

verus! {

/// A copy of a shape.
pub fn copy_dims(dims: &[usize]) -> (copy: Vec<usize>)
    ensures
        copy@ == dims@,
{
    let mut copy: Vec<usize> = Vec::with_capacity(dims.len());
    let mut i: usize = 0;
    while i < dims.len()
        invariant
            i <= dims@.len(),
            copy@ == dims@.take(i as int),
        decreases dims@.len() - i,
    {
        copy.push(dims[i]);
        assert(dims@.take(i + 1) =~= dims@.take(i as int).push(dims@[i as int]));
        i += 1;
    }
    assert(dims@.take(dims@.len() as int) =~= dims@);
    copy
}

/// The product of the sizes in `dims`: 1 for the empty shape.
pub open spec fn product(dims: Seq<usize>) -> nat
    decreases dims.len(),
{
    if dims.len() == 0 {
        1
    } else {
        dims[0] as nat * product(dims.drop_first())
    }
}

/// The product of a shape split in two is the product of the two parts.
pub proof fn lemma_product_concat(a: Seq<usize>, b: Seq<usize>)
    ensures
        product(a + b) == product(a) * product(b),
    decreases a.len(),
{
    if a.len() == 0 {
        assert(a + b =~= b);
        vstd::arithmetic::mul::lemma_mul_basics(product(b) as int);
    } else {
        assert((a + b).drop_first() =~= a.drop_first() + b);
        lemma_product_concat(a.drop_first(), b);
        let head = (a + b)[0] as nat;
        let rest = product(a.drop_first());
        let other = product(b);
        assert(head * (rest * other) == (head * rest) * other) by (nonlinear_arith);
    }
}

/// Appending one dimension multiplies the product by its size.
pub proof fn lemma_product_push(a: Seq<usize>, last: usize)
    ensures
        product(a.push(last)) == product(a) * last,
{
    assert(a.push(last) =~= a + seq![last]);
    lemma_product_concat(a, seq![last]);
    assert(seq![last].drop_first() =~= Seq::<usize>::empty());
    assert(product(seq![last].drop_first()) == 1);
    vstd::arithmetic::mul::lemma_mul_basics(last as int);
    assert(product(seq![last]) == last);
}

/// A shape with an empty dimension has no elements.
pub proof fn lemma_empty_product(dims: Seq<usize>, i: int)
    requires
        0 <= i < dims.len(),
        dims[i] == 0,
    ensures
        product(dims) == 0,
{
    lemma_product_push(dims.take(i), 0);
    lemma_product_concat(dims.take(i).push(0), dims.skip(i + 1));
    assert(dims.take(i).push(0) + dims.skip(i + 1) =~= dims);
    vstd::arithmetic::mul::lemma_mul_basics(product(dims.take(i)) as int);
    vstd::arithmetic::mul::lemma_mul_basics(product(dims.skip(i + 1)) as int);
}

/// A shape without an empty dimension has elements.
pub proof fn lemma_full_product(dims: Seq<usize>)
    requires
        forall|i: int| 0 <= i < dims.len() ==> #[trigger] dims[i] > 0,
    ensures
        product(dims) >= 1,
    decreases dims.len(),
{
    if dims.len() > 0 {
        lemma_full_product(dims.drop_first());
        let head = dims[0] as int;
        let rest = product(dims.drop_first()) as int;
        assert(head * rest >= 1) by (nonlinear_arith)
            requires
                head >= 1,
                rest >= 1,
        ;
    }
}

/// Tests whether a shape has cells.
pub fn has_cells(dims: &[usize]) -> (yes: bool)
    ensures
        yes == (product(dims@) > 0),
{
    let mut i: usize = 0;
    while i < dims.len()
        invariant
            i <= dims@.len(),
            forall|k: int| 0 <= k < i ==> #[trigger] dims@[k] > 0,
        decreases dims@.len() - i,
    {
        if dims[i] == 0 {
            proof {
                lemma_empty_product(dims@, i as int);
            }
            return false;
        }
        i += 1;
    }
    proof {
        lemma_full_product(dims@);
    }
    true
}

/// A size, or 1 where the size is 0.
pub open spec fn at_least_one(size: usize) -> nat {
    if size == 0 {
        1
    } else {
        size as nat
    }
}

/// The product of the sizes in `dims` with every 0 counted as 1: a bound on the product of any
/// part of the shape.
pub open spec fn volume(dims: Seq<usize>) -> nat
    decreases dims.len(),
{
    if dims.len() == 0 {
        1
    } else {
        volume(dims.drop_last()) * at_least_one(dims.last())
    }
}

/// A buffer with one eight-byte element for each cell of the shape is no larger than the largest
/// allocation, and so no product of sizes along the way exceeds a `usize`.
pub open spec fn addressable(dims: Seq<usize>) -> bool {
    volume(dims) * 8 <= isize::MAX
}

/// A longer shape has at least the volume of its front.
proof fn lemma_volume_grows(dims: Seq<usize>, i: int)
    requires
        0 <= i <= dims.len(),
    ensures
        1 <= volume(dims.take(i)) <= volume(dims),
    decreases dims.len(),
{
    if dims.len() > 0 {
        let front = dims.drop_last();
        if i == dims.len() {
            assert(dims.take(i) =~= dims);
            lemma_volume_grows(front, front.len() as int);
            assert(front.take(front.len() as int) =~= front);
        } else {
            assert(dims.take(i) =~= front.take(i));
            lemma_volume_grows(front, i);
        }
        let rest = volume(front) as int;
        let last = at_least_one(dims.last()) as int;
        assert(1 <= rest <= rest * last) by (nonlinear_arith)
            requires
                rest >= 1,
                last >= 1,
        ;
    }
}

/// The volume of a shape with one dimension.
pub proof fn lemma_volume_of_one(a: usize)
    ensures
        volume(seq![a]) == at_least_one(a),
{
    assert(seq![a].drop_last() =~= Seq::<usize>::empty());
    assert(volume(seq![a].drop_last()) == 1);
    vstd::arithmetic::mul::lemma_mul_basics(at_least_one(a) as int);
}

/// The volume of a shape with two dimensions.
pub proof fn lemma_volume_of_two(a: usize, b: usize)
    ensures
        volume(seq![a, b]) == at_least_one(a) * at_least_one(b),
{
    assert(seq![a, b].drop_last() =~= seq![a]);
    lemma_volume_of_one(a);
}

/// The volume of a shape with three dimensions.
pub proof fn lemma_volume_of_three(a: usize, b: usize, c: usize)
    ensures
        volume(seq![a, b, c]) == at_least_one(a) * at_least_one(b) * at_least_one(c),
{
    assert(seq![a, b, c].drop_last() =~= seq![a, b]);
    lemma_volume_of_two(a, b);
}

/// The volume of a shape with four dimensions.
pub proof fn lemma_volume_of_four(a: usize, b: usize, c: usize, d: usize)
    ensures
        volume(seq![a, b, c, d]) == at_least_one(a) * at_least_one(b) * at_least_one(c)
            * at_least_one(d),
{
    assert(seq![a, b, c, d].drop_last() =~= seq![a, b, c]);
    lemma_volume_of_three(a, b, c);
}

/// No size exceeds the volume of its shape.
pub proof fn lemma_size_within_volume(dims: Seq<usize>, i: int)
    requires
        0 <= i < dims.len(),
    ensures
        dims[i] <= volume(dims),
{
    let front = dims.take(i);
    lemma_volume_grows(dims, i);
    lemma_volume_grows(dims, i + 1);
    assert(dims.take(i + 1).drop_last() =~= front);
    let size = at_least_one(dims[i]) as int;
    let rest = volume(front) as int;
    assert(size <= rest * size) by (nonlinear_arith)
        requires
            rest >= 1,
            size >= 1,
    ;
}

/// The product of the sizes of a shape is no more than its volume.
pub proof fn lemma_product_within_volume(dims: Seq<usize>)
    ensures
        product(dims) <= volume(dims),
        1 <= volume(dims),
    decreases dims.len(),
{
    if dims.len() > 0 {
        let front = dims.drop_last();
        let last = dims.last();
        lemma_product_within_volume(front);
        lemma_product_push(front, last);
        assert(front.push(last) =~= dims);
        let p = product(front) as int;
        let v = volume(front) as int;
        let s = at_least_one(last) as int;
        assert(p * last <= v * s && 1 <= v * s) by (nonlinear_arith)
            requires
                0 <= p <= v,
                1 <= v,
                0 <= last <= s,
                1 <= s,
        ;
    }
}

/// The product of the sizes of a shape with two dimensions.
pub proof fn lemma_product_of_two(a: usize, b: usize)
    ensures
        product(seq![a, b]) == a * b,
{
    let start = Seq::<usize>::empty();
    assert(product(start) == 1);
    lemma_product_push(start, a);
    lemma_product_push(seq![a], b);
    assert(start.push(a) =~= seq![a]);
    assert(seq![a].push(b) =~= seq![a, b]);
    vstd::arithmetic::mul::lemma_mul_basics(a as int);
}

/// The product of the sizes of a shape with three dimensions.
pub proof fn lemma_product_of_three(a: usize, b: usize, c: usize)
    ensures
        product(seq![a, b, c]) == a * b * c,
{
    lemma_product_of_two(a, b);
    lemma_product_push(seq![a, b], c);
    assert(seq![a, b].push(c) =~= seq![a, b, c]);
}

/// A shape with three dimensions has cells where none of them is empty, and only there.
pub proof fn lemma_cells_of_three(a: usize, b: usize, c: usize)
    ensures
        product(seq![a, b, c]) > 0 <==> a > 0 && b > 0 && c > 0,
{
    lemma_product_of_three(a, b, c);
    assert(a * b * c > 0 <==> a > 0 && b > 0 && c > 0) by (nonlinear_arith)
        requires
            a >= 0,
            b >= 0,
            c >= 0,
    ;
}

/// A shape with four dimensions has cells where none of them is empty.
pub proof fn lemma_cells_of_four(a: usize, b: usize, c: usize, d: usize)
    ensures
        product(seq![a, b, c, d]) > 0 <==> a > 0 && b > 0 && c > 0 && d > 0,
{
    lemma_product_of_four(a, b, c, d);
    assert(a * b * c * d > 0 <==> a > 0 && b > 0 && c > 0 && d > 0) by (nonlinear_arith)
        requires
            a >= 0,
            b >= 0,
            c >= 0,
            d >= 0,
    ;
}

/// The product of the sizes of a shape with four dimensions.
pub proof fn lemma_product_of_four(a: usize, b: usize, c: usize, d: usize)
    ensures
        product(seq![a, b, c, d]) == a * b * c * d,
{
    lemma_product_of_three(a, b, c);
    lemma_product_push(seq![a, b, c], d);
    assert(seq![a, b, c].push(d) =~= seq![a, b, c, d]);
}

/// Whether a shape is addressable.
pub fn is_addressable(dims: &[usize]) -> (yes: bool)
    ensures
        yes == addressable(dims@),
{
    let limit: usize = isize::MAX as usize / 8;
    let mut size: usize = 1;
    let mut i: usize = 0;
    while i < dims.len()
        invariant
            i <= dims@.len(),
            size == volume(dims@.take(i as int)),
            1 <= size <= limit == isize::MAX / 8,
        decreases dims@.len() - i,
    {
        let factor: usize = if dims[i] == 0 { 1 } else { dims[i] };
        proof {
            assert(dims@.take(i + 1).drop_last() =~= dims@.take(i as int));
            assert(volume(dims@.take(i + 1)) == size * factor);
            lemma_volume_grows(dims@, i + 1);
        }
        match size.checked_mul(factor) {
            Some(next) => {
                if next > limit {
                    return false;
                }
                proof {
                    assert(next >= 1) by (nonlinear_arith)
                        requires
                            next == size * factor,
                            size >= 1,
                            factor >= 1,
                    ;
                }
                size = next;
            },
            None => {
                return false;
            },
        }
        i += 1;
    }
    assert(dims@.take(dims@.len() as int) =~= dims@);
    true
}

/// The size of the dimension `back` places from the end (counted from 1), or 1 where the shape
/// has no such dimension.
pub open spec fn size_from_end(dims: Seq<usize>, back: int) -> usize {
    if back <= dims.len() {
        dims[dims.len() - back]
    } else {
        1
    }
}

/// The size that two sizes broadcast to.
pub open spec fn broadcast_size(a: usize, b: usize) -> usize {
    if a == 1 {
        b
    } else {
        a
    }
}

/// Two shapes broadcast against each other: aligned at the end, their sizes are equal or one of
/// them is 1.
pub open spec fn broadcasts(a: Seq<usize>, b: Seq<usize>) -> bool {
    forall|back: int|
        1 <= back <= a.len() && back <= b.len() ==> {
            let x = #[trigger] size_from_end(a, back);
            let y = size_from_end(b, back);
            x == y || x == 1 || y == 1
        }
}

/// The shape that two shapes broadcast to.
pub open spec fn broadcast(a: Seq<usize>, b: Seq<usize>) -> Seq<usize> {
    let rank = if a.len() < b.len() {
        b.len()
    } else {
        a.len()
    };
    Seq::new(
        rank,
        |i: int| broadcast_size(size_from_end(a, rank - i), size_from_end(b, rank - i)),
    )
}

/// A shape without an empty dimension is addressable where eight bytes for each of its elements are
/// no more than the largest allocation.
pub proof fn law_addressable_shapes_fit_an_allocation(dims: Seq<usize>)
    requires
        forall|i: int| 0 <= i < dims.len() ==> #[trigger] dims[i] > 0,
    ensures
        volume(dims) == product(dims),
        addressable(dims) <==> product(dims) * 8 <= isize::MAX,
    decreases dims.len(),
{
    if dims.len() > 0 {
        let front = dims.drop_last();
        law_addressable_shapes_fit_an_allocation(front);
        lemma_product_push(front, dims.last());
        assert(front.push(dims.last()) =~= dims);
        assert(dims[dims.len() - 1] > 0);
    }
}

/// A shape broadcast against itself stays, and sizes of 1 take on those of the other shape.
pub proof fn law_broadcast_widens_single_cells(a: Seq<usize>, b: Seq<usize>)
    ensures
        broadcast(a, a) == a,
        broadcasts(a, b) ==> broadcast(a, b) == broadcast(b, a),
        broadcasts(a, b) <==> broadcasts(b, a),
{
    assert(broadcast(a, a) =~= a);
    if broadcasts(a, b) {
        let rank = broadcast(a, b).len();
        assert forall|i: int| 0 <= i < rank implies broadcast(a, b)[i] == broadcast(b, a)[i] by {
            let back = rank - i;
            assert(back <= a.len() && back <= b.len() ==> {
                let x = size_from_end(a, back);
                let y = size_from_end(b, back);
                x == y || x == 1 || y == 1
            });
        }
        assert(broadcast(a, b) =~= broadcast(b, a));
    }
    assert forall|back: int| 1 <= back <= b.len() && back <= a.len() && broadcasts(a, b) implies {
        let x = #[trigger] size_from_end(b, back);
        let y = size_from_end(a, back);
        x == y || x == 1 || y == 1
    } by {
        assert(size_from_end(a, back) == size_from_end(a, back));
    }
    assert forall|back: int| 1 <= back <= b.len() && back <= a.len() && broadcasts(b, a) implies {
        let x = #[trigger] size_from_end(a, back);
        let y = size_from_end(b, back);
        x == y || x == 1 || y == 1
    } by {
        assert(size_from_end(b, back) == size_from_end(b, back));
    }
}

/// The number of elements of a shape is the product of its sizes: 1 without dimensions, and times
/// the size of every dimension that is added in front or behind.
pub proof fn law_product_multiplies_the_sizes(dims: Seq<usize>, size: usize)
    ensures
        product(Seq::empty()) == 1,
        product(dims.push(size)) == product(dims) * size,
        product(seq![size] + dims) == product(dims) * size,
{
    lemma_product_push(dims, size);
    let longer = seq![size] + dims;
    assert(longer.drop_first() =~= dims);
    assert(longer[0] == size);
    assert(size * product(dims) == product(dims) * size) by (nonlinear_arith);
}

} // verus!
