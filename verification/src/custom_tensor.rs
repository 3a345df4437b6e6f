//! A dense tensor: a flat vector of elements read through a row-major shape.

use crate::shapes::{lemma_product_push, product};
use core::ops::{Add, Mul};
use vstd::prelude::*;
use vstd::std_specs::ops::{AddSpec, MulSpec};

verus! {

/// The row-major strides of a shape: one step along dimension `i` skips a whole block of the
/// dimensions behind it.
pub open spec fn row_major_strides(shape: Seq<usize>) -> Seq<nat> {
    Seq::new(shape.len(), |i: int| product(shape.skip(i + 1)))
}

/// Every block of trailing dimensions has a number of elements that a `usize` can hold.
pub open spec fn strides_fit(shape: Seq<usize>) -> bool {
    forall|i: int| 0 <= i <= shape.len() ==> #[trigger] product(shape.skip(i)) <= usize::MAX
}

/// The position in the flat data that `targets` addresses: each target counts strides of its
/// own dimension.
pub open spec fn flat_index(targets: Seq<usize>, strides: Seq<nat>) -> nat
    decreases targets.len(),
{
    if targets.len() == 0 {
        0
    } else {
        targets[0] as nat * strides[0] + flat_index(targets.drop_first(), strides.drop_first())
    }
}

/// A dense tensor over elements of type `E`.
#[derive(Clone, Debug)]
pub struct Tensor<E> {
    pub data: Vec<E>,
    pub shape: Vec<usize>,
    pub strides: Vec<usize>,
}

impl<E> Tensor<E> {
    /// The strides are the row-major strides of the shape. Nothing ties the length of the data
    /// to the shape.
    pub open spec fn wf(&self) -> bool {
        &&& self.strides@.len() == self.shape@.len()
        &&& forall|i: int|
            0 <= i < self.shape@.len() ==> #[trigger] self.strides@[i] == row_major_strides(
                self.shape@,
            )[i]
    }

    /// The element that `targets` addresses.
    pub open spec fn at(&self, targets: Seq<usize>) -> E {
        self.data@[flat_index(targets, row_major_strides(self.shape@)) as int]
    }

    /// `targets` addresses an element: it names no more dimensions than there are, and the
    /// position lies in the data.
    pub open spec fn addresses(&self, targets: Seq<usize>) -> bool {
        &&& targets.len() <= self.shape@.len()
        &&& flat_index(targets, row_major_strides(self.shape@)) < self.data@.len()
    }

    /// A tensor with the given data and shape, in row-major order.
    pub fn new(data: Vec<E>, shape: &[usize]) -> (tensor: Self)
        requires
            strides_fit(shape@),
        ensures
            tensor.wf(),
            tensor.data == data,
            tensor.shape@ == shape@,
    {
        let rank: usize = shape.len();
        let mut dims: Vec<usize> = Vec::with_capacity(rank);
        let mut strides: Vec<usize> = Vec::with_capacity(rank);
        let mut i: usize = 0;
        while i < rank
            invariant
                i <= rank == shape@.len(),
                dims@ == shape@.take(i as int),
                strides@.len() == i,
            decreases rank - i,
        {
            dims.push(shape[i]);
            strides.push(1);
            assert(shape@.take(i + 1) =~= shape@.take(i as int).push(shape@[i as int]));
            i += 1;
        }
        assert(shape@.take(rank as int) =~= shape@);
        let mut curr: usize = 1;
        let mut dim: usize = rank;
        assert(shape@.skip(rank as int) =~= Seq::<usize>::empty());
        while dim > 0
            invariant
                dim <= rank == shape@.len(),
                strides@.len() == rank,
                strides_fit(shape@),
                curr == product(shape@.skip(dim as int)),
                forall|j: int|
                    dim <= j < rank ==> #[trigger] strides@[j] == row_major_strides(shape@)[j],
            decreases dim,
        {
            dim -= 1;
            strides.set(dim, curr);
            assert(shape@.skip(dim as int).drop_first() =~= shape@.skip(dim + 1));
            assert(product(shape@.skip(dim as int)) == shape@[dim as int] * product(
                shape@.skip(dim + 1),
            ));
            assert(product(shape@.skip(dim as int)) == curr * shape@[dim as int])
                by (nonlinear_arith)
                requires
                    product(shape@.skip(dim as int)) == shape@[dim as int] * curr,
            ;
            curr = curr * shape[dim];
        }
        Tensor { data, shape: dims, strides }
    }

    /// Does nothing: the tensor keeps its data, its shape and its strides.
    pub fn tranpose(&mut self)
        ensures
            *final(self) == *old(self),
    {
    }
}

/// `total` is a sum that the addition of `E` gives for `x` and `y`.
pub open spec fn is_sum<E: Add<Output = E>>(x: E, y: E, total: E) -> bool {
    call_ensures(<E as Add>::add, (x, y), total)
}

/// `term` is a product that the multiplication of `E` gives for `x` and `y`.
pub open spec fn is_term<E: Mul<Output = E>>(x: E, y: E, term: E) -> bool {
    call_ensures(<E as Mul>::mul, (x, y), term)
}

/// `next` is what is left of the running sum `sum` once the product of `x` and `y` is added.
pub open spec fn accumulates<E: Add<Output = E> + Mul<Output = E>>(
    x: E,
    y: E,
    sum: E,
    next: E,
) -> bool {
    exists|term: E|
        #[trigger] is_term(x, y, term) && is_sum(sum, term, next)
}

/// `sums` are the running sums of the dot product of `row` and `column`, taken from the front
/// and started at the default element.
pub open spec fn running_sums<E: Add<Output = E> + Mul<Output = E> + Default>(
    row: Seq<E>,
    column: Seq<E>,
    sums: Seq<E>,
) -> bool {
    &&& sums.len() == row.len() + 1
    &&& call_ensures(<E as Default>::default, (), sums[0])
    &&& forall|i: int|
        0 <= i < row.len() ==> accumulates(row[i], column[i], #[trigger] sums[i], sums[i + 1])
}

/// `dot` is a dot product of `row` and `column`.
pub open spec fn is_dot<E: Add<Output = E> + Mul<Output = E> + Default>(
    row: Seq<E>,
    column: Seq<E>,
    dot: E,
) -> bool {
    exists|sums: Seq<E>| #[trigger] running_sums(row, column, sums) && sums.last() == dot
}

/// The arithmetic of `E` is defined on what a dot product of `row` and `column` needs: the product
/// of each pair, and the sum of it and of any running sum of the pairs before it.
pub open spec fn dot_is_defined<E: Add<Output = E> + Mul<Output = E> + Default>(
    row: Seq<E>,
    column: Seq<E>,
) -> bool {
    &&& forall|k: int| 0 <= k < row.len() ==> (#[trigger] row[k]).mul_req(column[k])
    &&& forall|k: int, sums: Seq<E>, term: E|
        0 <= k < row.len() && #[trigger] running_sums(row.take(k), column.take(k), sums)
            && #[trigger] is_term(row[k], column[k], term) ==> sums.last().add_req(term)
}

impl<E> Tensor<E> {
    /// The element of a matrix at row `r` and column `c`.
    pub open spec fn cell(&self, r: usize, c: usize) -> E {
        self.at(seq![r, c])
    }

    /// Row `r` of a matrix.
    pub open spec fn matrix_row(&self, r: usize) -> Seq<E> {
        Seq::new(self.shape@[1] as nat, |i: int| self.cell(r, i as usize))
    }

    /// Column `c` of a matrix.
    pub open spec fn matrix_column(&self, c: usize) -> Seq<E> {
        Seq::new(self.shape@[0] as nat, |i: int| self.cell(i as usize, c))
    }

    /// The data holds an element for each cell of the matrix.
    pub open spec fn covers_matrix(&self) -> bool {
        self.shape@[0] * self.shape@[1] <= self.data@.len()
    }

    /// The other tensor is a vector that is to be added to each row of this matrix.
    pub open spec fn takes_rows_of(&self, t: &Tensor<E>) -> bool {
        self.shape@ != t.shape@ && self.shape@.len() == 2 && t.shape@.len() == 1
    }
}

impl<E: Copy> Tensor<E> {
    /// A tensor of the given shape, filled with one weight.
    pub fn from_random(shape: &[usize], weight: E) -> (tensor: Self)
        requires
            strides_fit(shape@),
            forall|i: int|
                0 <= i <= shape@.len() ==> #[trigger] product(shape@.take(i)) <= usize::MAX,
        ensures
            tensor.wf(),
            tensor.shape@ == shape@,
            tensor.data@ == Seq::new(product(shape@), |i: int| weight),
    {
        let mut num_weights: usize = 1;
        let mut i: usize = 0;
        while i < shape.len()
            invariant
                i <= shape@.len(),
                num_weights == product(shape@.take(i as int)),
                forall|i: int|
                    0 <= i <= shape@.len() ==> #[trigger] product(shape@.take(i)) <= usize::MAX,
            decreases shape@.len() - i,
        {
            proof {
                assert(shape@.take(i + 1) =~= shape@.take(i as int).push(shape@[i as int]));
                lemma_product_push(shape@.take(i as int), shape@[i as int]);
            }
            num_weights = num_weights * shape[i];
            i += 1;
        }
        assert(shape@.take(shape@.len() as int) =~= shape@);
        let mut data: Vec<E> = Vec::with_capacity(num_weights);
        let mut filled: usize = 0;
        while filled < num_weights
            invariant
                filled <= num_weights,
                data@ == Seq::new(filled as nat, |i: int| weight),
            decreases num_weights - filled,
        {
            data.push(weight);
            filled += 1;
            assert(data@ =~= Seq::new(filled as nat, |i: int| weight));
        }
        Tensor::new(data, shape)
    }

    /// The element that `targets` addresses. Fewer targets than dimensions address the first
    /// element of a block.
    pub fn get(&self, targets: &[usize]) -> (element: E)
        requires
            self.wf(),
            self.addresses(targets@),
        ensures
            element == self.at(targets@),
    {
        let ghost strides = row_major_strides(self.shape@);
        let mut position: usize = 0;
        let mut i: usize = 0;
        assert(targets@.skip(0) =~= targets@);
        assert(strides.skip(0) =~= strides);
        while i < targets.len()
            invariant
                i <= targets@.len() <= self.shape@.len(),
                self.wf(),
                strides == row_major_strides(self.shape@),
                flat_index(targets@, strides) < self.data@.len(),
                flat_index(targets@, strides) == position + flat_index(
                    targets@.skip(i as int),
                    strides.skip(i as int),
                ),
            decreases targets@.len() - i,
        {
            proof {
                let rest = targets@.skip(i as int);
                let steps = strides.skip(i as int);
                assert(rest.drop_first() =~= targets@.skip(i + 1));
                assert(steps.drop_first() =~= strides.skip(i + 1));
                assert(rest[0] == targets@[i as int]);
                assert(self.strides@[i as int] == strides[i as int]);
                assert(flat_index(rest, steps) == rest[0] as nat * steps[0] + flat_index(
                    rest.drop_first(),
                    steps.drop_first(),
                ));
                assert(targets@[i as int] * self.strides@[i as int] == rest[0] as nat * steps[0]);
                assert(self.data.len() <= usize::MAX);
            }
            position = position + targets[i] * self.strides[i];
            i += 1;
        }
        self.data[position]
    }
}

/// `targets` names a cell of the shape: one target for each dimension, and each within it.
pub open spec fn within(targets: Seq<usize>, shape: Seq<usize>) -> bool {
    &&& targets.len() == shape.len()
    &&& forall|i: int| 0 <= i < shape.len() ==> #[trigger] targets[i] < shape[i]
}

/// The strides behind the first dimension are the strides of the shape without it.
proof fn lemma_strides_drop_first(shape: Seq<usize>)
    requires
        shape.len() > 0,
    ensures
        row_major_strides(shape).drop_first() == row_major_strides(shape.drop_first()),
        row_major_strides(shape)[0] == product(shape.drop_first()),
{
    assert(shape.skip(1) =~= shape.drop_first());
    assert forall|i: int| 0 <= i < shape.len() - 1 implies row_major_strides(shape).drop_first()[i]
        == row_major_strides(shape.drop_first())[i] by {
        assert(shape.skip(i + 2) =~= shape.drop_first().skip(i + 1));
    }
    assert(row_major_strides(shape).drop_first() =~= row_major_strides(shape.drop_first()));
}

/// A cell of the shape lies among the first `product(shape)` elements of the data.
pub proof fn law_cells_lie_in_data(targets: Seq<usize>, shape: Seq<usize>)
    requires
        within(targets, shape),
    ensures
        flat_index(targets, row_major_strides(shape)) < product(shape),
    decreases shape.len(),
{
    if shape.len() > 0 {
        assert forall|i: int| 0 <= i < shape.drop_first().len() implies #[trigger]
        targets.drop_first()[i] < shape.drop_first()[i] by {
            assert(targets[i + 1] < shape[i + 1]);
        }
        law_cells_lie_in_data(targets.drop_first(), shape.drop_first());
        lemma_strides_drop_first(shape);
        assert(targets[0] < shape[0]);
        lemma_cell_in_table(
            targets[0] as int,
            flat_index(targets.drop_first(), row_major_strides(shape.drop_first())) as int,
            shape[0] as int,
            product(shape.drop_first()) as int,
        );
    }
}

/// Two different cells of a shape never share an element of the data.
pub proof fn law_cells_do_not_overlap(a: Seq<usize>, b: Seq<usize>, shape: Seq<usize>)
    requires
        within(a, shape),
        within(b, shape),
        flat_index(a, row_major_strides(shape)) == flat_index(b, row_major_strides(shape)),
    ensures
        a == b,
    decreases shape.len(),
{
    if shape.len() == 0 {
        assert(a =~= b);
    } else {
        let rest = shape.drop_first();
        assert forall|i: int| 0 <= i < rest.len() implies #[trigger] a.drop_first()[i]
            < rest[i] by {
            assert(a[i + 1] < shape[i + 1]);
        }
        assert forall|i: int| 0 <= i < rest.len() implies #[trigger] b.drop_first()[i]
            < rest[i] by {
            assert(b[i + 1] < shape[i + 1]);
        }
        lemma_strides_drop_first(shape);
        law_cells_lie_in_data(a.drop_first(), rest);
        law_cells_lie_in_data(b.drop_first(), rest);
        let block = product(rest) as int;
        let x = flat_index(a.drop_first(), row_major_strides(rest)) as int;
        let y = flat_index(b.drop_first(), row_major_strides(rest)) as int;
        vstd::arithmetic::div_mod::lemma_fundamental_div_mod_converse(
            a[0] * block + x,
            block,
            a[0] as int,
            x,
        );
        vstd::arithmetic::div_mod::lemma_fundamental_div_mod_converse(
            b[0] * block + y,
            block,
            b[0] as int,
            y,
        );
        law_cells_do_not_overlap(a.drop_first(), b.drop_first(), rest);
        assert forall|i: int| 0 <= i < a.len() implies a[i] == b[i] by {
            if i > 0 {
                assert(a[i] == a.drop_first()[i - 1]);
                assert(b[i] == b.drop_first()[i - 1]);
            }
        }
        assert(a =~= b);
    }
}

/// The cell of the shape that the element at `position` belongs to.
pub open spec fn cell_of(position: nat, shape: Seq<usize>) -> Seq<usize>
    decreases shape.len(),
{
    if shape.len() == 0 {
        Seq::empty()
    } else {
        let block = product(shape.drop_first());
        seq![(position / block) as usize] + cell_of(position % block, shape.drop_first())
    }
}

/// Every one of the first `product(shape)` elements of the data belongs to a cell of the shape.
pub proof fn law_cells_cover_data(position: nat, shape: Seq<usize>)
    requires
        position < product(shape),
    ensures
        within(cell_of(position, shape), shape),
        flat_index(cell_of(position, shape), row_major_strides(shape)) == position,
    decreases shape.len(),
{
    if shape.len() > 0 {
        let rest = shape.drop_first();
        let block = product(rest);
        assert(block > 0) by (nonlinear_arith)
            requires
                position < shape[0] * block,
                block >= 0,
        ;
        let row = position / block;
        let inner = position % block;
        assert(row < shape[0]) by (nonlinear_arith)
            requires
                row == position / block,
                position < shape[0] * block,
                block > 0,
        ;
        law_cells_cover_data(inner, rest);
        lemma_strides_drop_first(shape);
        let cell = cell_of(position, shape);
        assert(cell.drop_first() =~= cell_of(inner, rest));
        assert forall|i: int| 0 <= i < shape.len() implies #[trigger] cell[i] < shape[i] by {
            if i > 0 {
                assert(cell[i] == cell_of(inner, rest)[i - 1]);
            }
        }
        vstd::arithmetic::div_mod::lemma_fundamental_div_mod(position as int, block as int);
        assert(row * block == block * row) by (nonlinear_arith);
    }
}

/// Where the arithmetic of `E` is a function of its operands, a dot product is unique.
pub proof fn law_dot_is_unique<E: Add<Output = E> + Mul<Output = E> + Default>(
    row: Seq<E>,
    column: Seq<E>,
    a: E,
    b: E,
)
    requires
        E::obeys_add_spec(),
        E::obeys_mul_spec(),
        forall|x: E, y: E|
            call_ensures(<E as Default>::default, (), x) && call_ensures(
                <E as Default>::default,
                (),
                y,
            ) ==> x == y,
        is_dot(row, column, a),
        is_dot(row, column, b),
    ensures
        a == b,
{
    let s = choose|sums: Seq<E>| #[trigger] running_sums(row, column, sums) && sums.last() == a;
    let t = choose|sums: Seq<E>| #[trigger] running_sums(row, column, sums) && sums.last() == b;
    lemma_running_sums_agree(row, column, s, t, row.len());
}

/// Two sequences of running sums over deterministic arithmetic agree at every place.
proof fn lemma_running_sums_agree<E: Add<Output = E> + Mul<Output = E> + Default>(
    row: Seq<E>,
    column: Seq<E>,
    s: Seq<E>,
    t: Seq<E>,
    n: nat,
)
    requires
        E::obeys_add_spec(),
        E::obeys_mul_spec(),
        forall|x: E, y: E|
            call_ensures(<E as Default>::default, (), x) && call_ensures(
                <E as Default>::default,
                (),
                y,
            ) ==> x == y,
        running_sums(row, column, s),
        running_sums(row, column, t),
        n <= row.len(),
    ensures
        s[n as int] == t[n as int],
    decreases n,
{
    if n > 0 {
        let i = n - 1;
        lemma_running_sums_agree(row, column, s, t, i as nat);
        assert(accumulates(row[i], column[i], s[i], s[i + 1]));
        assert(accumulates(row[i], column[i], t[i], t[i + 1]));
    }
}

/// In a matrix, the cell at row `r` and column `c` lies `r` whole rows and `c` cells from the
/// front.
pub proof fn lemma_flat_index_matrix(shape: Seq<usize>, r: usize, c: usize)
    requires
        shape.len() == 2,
    ensures
        flat_index(seq![r, c], row_major_strides(shape)) == r * shape[1] + c,
{
    let strides = row_major_strides(shape);
    assert(shape.skip(2) =~= Seq::<usize>::empty());
    assert(shape.skip(1).drop_first() =~= Seq::<usize>::empty());
    vstd::arithmetic::mul::lemma_mul_basics(shape[1] as int);
    vstd::arithmetic::mul::lemma_mul_basics(c as int);
    assert(product(shape.skip(2)) == 1);
    assert(product(shape.skip(1).drop_first()) == 1);
    assert(product(shape.skip(1)) == shape[1]);
    let targets = seq![r, c];
    assert(targets.drop_first() =~= seq![c]);
    assert(seq![c].drop_first() =~= Seq::<usize>::empty());
    assert(strides.drop_first()[0] == 1);
    assert(flat_index(seq![c].drop_first(), strides.drop_first().drop_first()) == 0);
    assert(flat_index(seq![c], strides.drop_first()) == c);
}

/// In a vector, the cell at `c` lies `c` cells from the front.
pub proof fn lemma_flat_index_vector(shape: Seq<usize>, c: usize)
    requires
        shape.len() == 1,
    ensures
        flat_index(seq![c], row_major_strides(shape)) == c,
{
    assert(shape.skip(1) =~= Seq::<usize>::empty());
    assert(product(shape.skip(1)) == 1);
    assert(seq![c].drop_first() =~= Seq::<usize>::empty());
    vstd::arithmetic::mul::lemma_mul_basics(c as int);
    assert(flat_index(seq![c].drop_first(), row_major_strides(shape).drop_first()) == 0);
}

/// Row `r` of a table of `cols` columns ends before row `r + 1` begins.
pub proof fn lemma_cell_in_table(r: int, c: int, rows: int, cols: int)
    requires
        0 <= r < rows,
        0 <= c < cols,
    ensures
        0 <= r * cols <= r * cols + c < (r + 1) * cols <= rows * cols,
{
    assert(0 <= r * cols <= r * cols + c < (r + 1) * cols <= rows * cols) by (nonlinear_arith)
        requires
            0 <= r < rows,
            0 <= c < cols,
    ;
}

impl<E: Add<Output = E> + Mul<Output = E> + Default> Tensor<E> {
    /// `product` is a matrix product of this matrix and `t`: each cell is a dot product of a row
    /// of this matrix and a column of `t`.
    pub open spec fn multiplies_to(&self, t: &Tensor<E>, product: &Tensor<E>) -> bool {
        &&& product.wf()
        &&& product.shape@ == seq![self.shape@[0], t.shape@[1]]
        &&& product.data@.len() == self.shape@[0] * t.shape@[1]
        &&& forall|r: usize, c: usize|
            r < self.shape@[0] && c < t.shape@[1] ==> is_dot(
                self.matrix_row(r),
                t.matrix_column(c),
                #[trigger] product.cell(r, c),
            )
    }
}

impl<E: Copy + Add<Output = E> + Mul<Output = E> + Default> Tensor<E> {
    /// The matrix product: each cell is the dot product of a row of `self` and a column of `t`.
    pub fn matmul2d(&self, t: &Tensor<E>) -> (product: Self)
        requires
            self.wf(),
            t.wf(),
            self.shape@.len() == 2,
            t.shape@.len() == 2,
            self.shape@[1] == t.shape@[0],
            self.shape@[0] * t.shape@[1] <= usize::MAX,
            self.shape@[0] > 0 && t.shape@[0] > 0 && t.shape@[1] > 0 ==> self.covers_matrix()
                && t.covers_matrix(),
            forall|r: usize, c: usize|
                r < self.shape@[0] && c < t.shape@[1] ==> dot_is_defined(
                    #[trigger] self.matrix_row(r),
                    #[trigger] t.matrix_column(c),
                ),
        ensures
            self.multiplies_to(t, &product),
    {
        let rows: usize = self.shape[0];
        let cols: usize = t.shape[1];
        let inner: usize = self.shape[1];
        let mut data: Vec<E> = Vec::with_capacity(rows * cols);
        let mut r: usize = 0;
        proof {
            vstd::arithmetic::mul::lemma_mul_basics(cols as int);
        }
        while r < rows
            invariant
                r <= rows,
                rows == self.shape@[0],
                cols == t.shape@[1],
                inner == self.shape@[1] == t.shape@[0],
                self.wf(),
                t.wf(),
                self.shape@.len() == 2,
                t.shape@.len() == 2,
                rows > 0 && inner > 0 && cols > 0 ==> self.covers_matrix() && t.covers_matrix(),
                forall|i: usize, j: usize|
                    i < rows && j < cols ==> dot_is_defined(
                        #[trigger] self.matrix_row(i),
                        #[trigger] t.matrix_column(j),
                    ),
                data@.len() == r * cols,
                forall|i: usize, j: usize|
                    i < r && j < cols ==> is_dot(
                        #[trigger] self.matrix_row(i),
                        #[trigger] t.matrix_column(j),
                        data@[i * cols + j],
                    ),
            decreases rows - r,
        {
            let mut c: usize = 0;
            while c < cols
                invariant
                    r < rows,
                    c <= cols,
                    rows == self.shape@[0],
                    cols == t.shape@[1],
                    inner == self.shape@[1] == t.shape@[0],
                    self.wf(),
                    t.wf(),
                    self.shape@.len() == 2,
                    t.shape@.len() == 2,
                    rows > 0 && inner > 0 && cols > 0 ==> self.covers_matrix()
                        && t.covers_matrix(),
                    forall|i: usize, j: usize|
                        i < rows && j < cols ==> dot_is_defined(
                            #[trigger] self.matrix_row(i),
                            #[trigger] t.matrix_column(j),
                        ),
                    data@.len() == r * cols + c,
                    forall|i: usize, j: usize|
                        j < cols && (i < r || i == r && j < c) ==> is_dot(
                            #[trigger] self.matrix_row(i),
                            #[trigger] t.matrix_column(j),
                            data@[i * cols + j],
                        ),
                decreases cols - c,
            {
                let ghost row = self.matrix_row(r);
                let ghost column = t.matrix_column(c);
                let mut sum: E = E::default();
                let ghost mut sums: Seq<E> = seq![sum];
                let mut i: usize = 0;
                assert(dot_is_defined(row, column));
                while i < inner
                    invariant
                        r < rows,
                        c < cols,
                        i <= inner,
                        rows == self.shape@[0],
                        cols == t.shape@[1],
                        inner == self.shape@[1] == t.shape@[0],
                        self.wf(),
                        t.wf(),
                        self.shape@.len() == 2,
                        t.shape@.len() == 2,
                        rows > 0 && inner > 0 && cols > 0 ==> self.covers_matrix()
                            && t.covers_matrix(),
                        dot_is_defined(row, column),
                        row == self.matrix_row(r),
                        column == t.matrix_column(c),
                        sums.len() == i + 1,
                        sums.last() == sum,
                        call_ensures(<E as Default>::default, (), sums[0]),
                        forall|k: int|
                            0 <= k < i ==> accumulates(
                                row[k],
                                column[k],
                                #[trigger] sums[k],
                                sums[k + 1],
                            ),
                    decreases inner - i,
                {
                    proof {
                        lemma_flat_index_matrix(self.shape@, r, i);
                        lemma_flat_index_matrix(t.shape@, i, c);
                        lemma_cell_in_table(r as int, i as int, rows as int, inner as int);
                        lemma_cell_in_table(i as int, c as int, inner as int, cols as int);
                    }
                    let x: E = self.get(&[r, i]);
                    let y: E = t.get(&[i, c]);
                    proof {
                        assert([r, i]@ =~= seq![r, i]);
                        assert([i, c]@ =~= seq![i, c]);
                        assert(x == row[i as int] && y == column[i as int]);
                    }
                    let term: E = x * y;
                    proof {
                        assert(is_term(row[i as int], column[i as int], term));
                        assert(running_sums(row.take(i as int), column.take(i as int), sums));
                    }
                    let next: E = sum + term;
                    proof {
                        assert(is_sum(sum, term, next));
                        assert(accumulates(row[i as int], column[i as int], sum, next));
                        let before = sums;
                        sums = sums.push(next);
                        assert forall|k: int| 0 <= k < i + 1 implies accumulates(
                            row[k],
                            column[k],
                            #[trigger] sums[k],
                            sums[k + 1],
                        ) by {
                            assert(sums[k] == before[k]);
                            if k < i {
                                assert(sums[k + 1] == before[k + 1]);
                            }
                        }
                    }
                    sum = next;
                    i += 1;
                }
                let ghost earlier = data@;
                data.push(sum);
                proof {
                    assert(running_sums(row, column, sums));
                    assert forall|i: usize, j: usize|
                        j < cols && (i < r || i == r && j < c + 1) implies is_dot(
                        #[trigger] self.matrix_row(i),
                        #[trigger] t.matrix_column(j),
                        data@[i * cols + j],
                    ) by {
                        if i < r {
                            lemma_cell_in_table(i as int, j as int, r as int, cols as int);
                        }
                        if i < r || j < c {
                            assert(data@[i * cols + j] == earlier[i * cols + j]);
                        }
                    }
                }
                c += 1;
            }
            proof {
                assert((r + 1) * cols == r * cols + cols) by (nonlinear_arith);
            }
            r += 1;
        }
        proof {
            let shape = [rows, cols]@;
            assert(shape =~= seq![rows, cols]);
            assert(shape.skip(0) =~= shape);
            assert(shape.drop_first() =~= seq![cols]);
            assert(seq![cols].drop_first() =~= Seq::<usize>::empty());
            assert(shape.skip(1) =~= seq![cols]);
            assert(shape.skip(2) =~= Seq::<usize>::empty());
            assert(product(seq![cols].drop_first()) == 1);
            vstd::arithmetic::mul::lemma_mul_basics(cols as int);
            assert(product(seq![cols]) == cols);
            assert(product(shape) == rows * cols);
            assert forall|i: int| 0 <= i <= shape.len() implies #[trigger] product(shape.skip(i))
                <= usize::MAX by {
                assert(i == 0 || i == 1 || i == 2);
            }
        }
        let result: Tensor<E> = Self::new(data, &[rows, cols]);
        proof {
            assert forall|r: usize, c: usize|
                r < rows && c < cols implies is_dot(
                self.matrix_row(r),
                t.matrix_column(c),
                #[trigger] result.cell(r, c),
            ) by {
                lemma_flat_index_matrix(result.shape@, r, c);
            }
        }
        result
    }
}

/// Column `c` of a matrix product is the product with column `c` of the second matrix alone.
pub proof fn law_product_is_by_columns<E: Add<Output = E> + Mul<Output = E> + Default>(
    a: &Tensor<E>,
    b: &Tensor<E>,
    product: &Tensor<E>,
    c: usize,
    column: &Tensor<E>,
    product_column: &Tensor<E>,
)
    requires
        a.shape@.len() == 2,
        b.shape@.len() == 2,
        a.multiplies_to(b, product),
        c < b.shape@[1],
        column.shape@ == seq![b.shape@[0], 1],
        column.matrix_column(0) == b.matrix_column(c),
        product_column.wf(),
        product_column.shape@ == seq![a.shape@[0], 1],
        product_column.data@.len() == a.shape@[0],
        product_column.matrix_column(0) == product.matrix_column(c),
    ensures
        a.multiplies_to(column, product_column),
{
    assert forall|r: usize, k: usize| r < a.shape@[0] && k < column.shape@[1] implies is_dot(
        a.matrix_row(r),
        column.matrix_column(k),
        #[trigger] product_column.cell(r, k),
    ) by {
        assert(k == 0);
        assert(product_column.matrix_column(0)[r as int] == product_column.cell(r, k));
        assert(product.matrix_column(c)[r as int] == product.cell(r, c));
    }
}

/// The arithmetic of `E` with `one` and `zero` as whole numbers have it: multiplying by them
/// gives the other factor and `zero`, adding `zero` changes nothing, and the default is `zero`.
pub open spec fn units<E: Add<Output = E> + Mul<Output = E> + Default>(one: E, zero: E) -> bool {
    &&& forall|x: E, term: E| #[trigger] is_term(x, one, term) ==> term == x
    &&& forall|x: E, term: E| #[trigger] is_term(x, zero, term) ==> term == zero
    &&& forall|x: E, total: E| #[trigger] is_sum(x, zero, total) ==> total == x
    &&& forall|x: E, total: E| #[trigger] is_sum(zero, x, total) ==> total == x
    &&& forall|x: E| #[trigger] call_ensures(<E as Default>::default, (), x) ==> x == zero
}

/// The square matrix has `one` on its diagonal and `zero` in the other cells.
pub open spec fn is_identity<E>(t: &Tensor<E>, one: E, zero: E) -> bool {
    &&& t.shape@.len() == 2
    &&& t.shape@[0] == t.shape@[1]
    &&& forall|r: usize, c: usize|
        r < t.shape@[0] && c < t.shape@[1] ==> #[trigger] t.cell(r, c) == if r == c {
            one
        } else {
            zero
        }
}

/// The running sums along column `c` of the identity are `zero` up to `c`, and from then on the
/// element at `c`.
proof fn lemma_running_sums_pick<E: Add<Output = E> + Mul<Output = E> + Default>(
    row: Seq<E>,
    column: Seq<E>,
    sums: Seq<E>,
    c: int,
    one: E,
    zero: E,
    n: int,
)
    requires
        units(one, zero),
        running_sums(row, column, sums),
        0 <= c < row.len(),
        0 <= n <= row.len(),
        forall|k: int|
            0 <= k < row.len() ==> #[trigger] column[k] == if k == c {
                one
            } else {
                zero
            },
    ensures
        sums[n] == if n <= c {
            zero
        } else {
            row[c]
        },
    decreases n,
{
    if n > 0 {
        let k = n - 1;
        lemma_running_sums_pick(row, column, sums, c, one, zero, k);
        assert(accumulates(row[k], column[k], sums[k], sums[k + 1]));
    }
}

/// Where the arithmetic of `E` has units, a matrix product with the identity is the matrix.
pub proof fn law_identity_is_neutral<E: Add<Output = E> + Mul<Output = E> + Default>(
    a: &Tensor<E>,
    identity: &Tensor<E>,
    product: &Tensor<E>,
    one: E,
    zero: E,
    r: usize,
    c: usize,
)
    requires
        units(one, zero),
        is_identity(identity, one, zero),
        a.shape@.len() == 2,
        a.shape@[1] == identity.shape@[0],
        a.multiplies_to(identity, product),
        r < a.shape@[0],
        c < a.shape@[1],
    ensures
        product.shape@ == a.shape@,
        product.cell(r, c) == a.cell(r, c),
{
    assert(product.shape@ =~= a.shape@);
    let row = a.matrix_row(r);
    let column = identity.matrix_column(c);
    let dot = product.cell(r, c);
    let sums = choose|sums: Seq<E>| #[trigger]
        running_sums(row, column, sums) && sums.last() == dot;
    assert forall|k: int| 0 <= k < row.len() implies #[trigger] column[k] == if k == c {
        one
    } else {
        zero
    } by {
        assert(column[k] == identity.cell(k as usize, c));
    }
    lemma_running_sums_pick(row, column, sums, c as int, one, zero, row.len() as int);
}

impl<E: Add<Output = E>> Tensor<E> {
    /// `sum` is an elementwise sum of this tensor and `t`.
    pub open spec fn sums_to(&self, t: &Tensor<E>, sum: &Tensor<E>) -> bool {
        &&& sum.wf()
        &&& sum.shape@ == self.shape@
        &&& sum.data@.len() == self.data@.len()
        &&& forall|i: int|
            0 <= i < self.data@.len() ==> is_sum(
                self.data@[i],
                t.data@[i],
                #[trigger] sum.data@[i],
            )
    }

    /// `sum` is this matrix with the vector `t` added to each of its rows. Elements behind the
    /// last row stay.
    pub open spec fn rows_sum_to(&self, t: &Tensor<E>, sum: &Tensor<E>) -> bool {
        &&& sum.wf()
        &&& sum.shape@ == self.shape@
        &&& sum.data@.len() == self.data@.len()
        &&& forall|i: int|
            0 <= i < self.data@.len() ==> if i < self.shape@[0] * self.shape@[1] {
                is_sum(
                    self.data@[i],
                    t.data@[i % self.shape@[1] as int],
                    #[trigger] sum.data@[i],
                )
            } else {
                sum.data@[i] == self.data@[i]
            }
    }
}

/// Where the addition of `E` commutes, so does that of tensors with as many elements.
pub proof fn law_sum_commutes<E: Add<Output = E>>(a: &Tensor<E>, b: &Tensor<E>, sum: &Tensor<E>)
    requires
        forall|x: E, y: E, total: E| #[trigger] is_sum(x, y, total) ==> is_sum(y, x, total),
        a.shape@ == b.shape@,
        a.data@.len() == b.data@.len(),
        a.sums_to(b, sum),
    ensures
        b.sums_to(a, sum),
{
}

/// Every row of the matrix `t` is the vector `v`.
pub open spec fn repeats<E>(t: &Tensor<E>, v: &Tensor<E>) -> bool {
    let rows = t.shape@[0];
    let cols = t.shape@[1];
    forall|i: int| 0 <= i < rows * cols ==> #[trigger] t.data@[i] == v.data@[i % cols as int]
}

/// Adding a vector to each row of a matrix, with no elements behind the last row, is adding the
/// matrix all of whose rows are the vector.
pub proof fn law_vector_is_added_to_each_row<E: Add<Output = E>>(
    a: &Tensor<E>,
    v: &Tensor<E>,
    tiled: &Tensor<E>,
    sum: &Tensor<E>,
)
    requires
        a.shape@.len() == 2,
        a.data@.len() == a.shape@[0] * a.shape@[1],
        tiled.shape@ == a.shape@,
        repeats(tiled, v),
    ensures
        a.rows_sum_to(v, sum) <==> a.sums_to(tiled, sum),
{
    let end = a.data@.len() as int;
    if a.sums_to(tiled, sum) {
        assert forall|i: int| 0 <= i < end implies is_sum(
            a.data@[i],
            v.data@[i % a.shape@[1] as int],
            #[trigger] sum.data@[i],
        ) by {
            assert(tiled.data@[i] == v.data@[i % a.shape@[1] as int]);
        }
    }
    if a.rows_sum_to(v, sum) {
        assert forall|i: int| 0 <= i < end implies is_sum(
            a.data@[i],
            tiled.data@[i],
            #[trigger] sum.data@[i],
        ) by {
            assert(tiled.data@[i] == v.data@[i % a.shape@[1] as int]);
        }
    }
}

impl<E: Copy + Add<Output = E>> Tensor<E> {
    /// The elementwise sum of two tensors of one shape, or of a matrix and a vector that is
    /// added to each of its rows. Other pairs of shapes have no sum.
    pub fn add(&self, t: &Tensor<E>) -> (sum: Option<Self>)
        requires
            self.wf(),
            t.wf(),
            self.shape@ == t.shape@ ==> self.data@.len() <= t.data@.len() && forall|i: int|
                0 <= i < self.data@.len() ==> (#[trigger] self.data@[i]).add_req(t.data@[i]),
            self.takes_rows_of(t) ==> {
                &&& self.shape@[1] == t.shape@[0]
                &&& self.shape@[0] > 0 && self.shape@[1] > 0 ==> self.covers_matrix()
                    && t.shape@[0] <= t.data@.len()
                &&& forall|i: int|
                    0 <= i < self.shape@[0] * self.shape@[1] ==> (
                    #[trigger] self.data@[i]).add_req(t.data@[i % self.shape@[1] as int])
            },
        ensures
            sum is Some <==> self.shape@ == t.shape@ || self.takes_rows_of(t),
            sum matches Some(sum) ==> if self.shape@ == t.shape@ {
                self.sums_to(t, &sum)
            } else {
                self.rows_sum_to(t, &sum)
            },
    {
        if same_shape(&self.shape, &t.shape) {
            let mut data: Vec<E> = Vec::with_capacity(self.data.len());
            let mut i: usize = 0;
            while i < self.data.len()
                invariant
                    i <= self.data@.len() <= t.data@.len(),
                    data@.len() == i,
                    forall|k: int|
                        0 <= k < self.data@.len() ==> (#[trigger] self.data@[k]).add_req(
                            t.data@[k],
                        ),
                    forall|k: int|
                        0 <= k < i ==> is_sum(self.data@[k], t.data@[k], #[trigger] data@[k]),
                decreases self.data@.len() - i,
            {
                let total: E = self.data[i] + t.data[i];
                data.push(total);
                i += 1;
            }
            let shape: Vec<usize> = copied(&self.shape);
            return Some(Tensor { data, shape, strides: copied(&self.strides) });
        }
        if self.shape.len() == 2 && t.shape.len() == 1 {
            let rows: usize = self.shape[0];
            let cols: usize = self.shape[1];
            let mut data: Vec<E> = copied(&self.data);
            let mut r: usize = 0;
            proof {
                vstd::arithmetic::mul::lemma_mul_basics(cols as int);
            }
            while r < rows
                invariant
                    r <= rows,
                    rows == self.shape@[0],
                    cols == self.shape@[1] == t.shape@[0],
                    t.wf(),
                    t.shape@.len() == 1,
                    rows > 0 && cols > 0 ==> rows * cols <= self.data@.len() && cols
                        <= t.data@.len(),
                    forall|i: int|
                        0 <= i < rows * cols ==> (#[trigger] self.data@[i]).add_req(
                            t.data@[i % cols as int],
                        ),
                    data@.len() == self.data@.len(),
                    forall|i: int|
                        0 <= i < data@.len() ==> if i < r * cols {
                            is_sum(self.data@[i], t.data@[i % cols as int], #[trigger] data@[i])
                        } else {
                            data@[i] == self.data@[i]
                        },
                decreases rows - r,
            {
                let mut c: usize = 0;
                while c < cols
                    invariant
                        r < rows,
                        c <= cols,
                        rows == self.shape@[0],
                        cols == self.shape@[1] == t.shape@[0],
                        t.wf(),
                        t.shape@.len() == 1,
                        rows > 0 && cols > 0 ==> rows * cols <= self.data@.len() && cols
                            <= t.data@.len(),
                        forall|i: int|
                            0 <= i < rows * cols ==> (#[trigger] self.data@[i]).add_req(
                                t.data@[i % cols as int],
                            ),
                        data@.len() == self.data@.len(),
                        forall|i: int|
                            0 <= i < data@.len() ==> if i < r * cols + c {
                                is_sum(
                                    self.data@[i],
                                    t.data@[i % cols as int],
                                    #[trigger] data@[i],
                                )
                            } else {
                                data@[i] == self.data@[i]
                            },
                    decreases cols - c,
                {
                    proof {
                        lemma_cell_in_table(r as int, c as int, rows as int, cols as int);
                        lemma_flat_index_vector(t.shape@, c);
                        vstd::arithmetic::div_mod::lemma_fundamental_div_mod_converse(
                            r * cols + c,
                            cols as int,
                            r as int,
                            c as int,
                        );
                        assert(self.data.len() <= usize::MAX);
                        assert([c]@ =~= seq![c]);
                    }
                    let position: usize = r * cols + c;
                    let total: E = data[position] + t.get(&[c]);
                    data.set(position, total);
                    c += 1;
                }
                proof {
                    assert((r + 1) * cols == r * cols + cols) by (nonlinear_arith);
                }
                r += 1;
            }
            let shape: Vec<usize> = copied(&self.shape);
            return Some(Tensor { data, shape, strides: copied(&self.strides) });
        }
        None
    }
}

/// Whether two shapes are the same.
fn same_shape(a: &Vec<usize>, b: &Vec<usize>) -> (same: bool)
    ensures
        same == (a@ == b@),
{
    if a.len() != b.len() {
        return false;
    }
    let mut i: usize = 0;
    while i < a.len()
        invariant
            i <= a@.len() == b@.len(),
            forall|k: int| 0 <= k < i ==> a@[k] == b@[k],
        decreases a@.len() - i,
    {
        if a[i] != b[i] {
            return false;
        }
        i += 1;
    }
    assert(a@ =~= b@);
    true
}

/// A second vector with the same elements.
fn copied<T: Copy>(items: &Vec<T>) -> (copy: Vec<T>)
    ensures
        copy@ == items@,
{
    let mut copy: Vec<T> = Vec::with_capacity(items.len());
    let mut i: usize = 0;
    while i < items.len()
        invariant
            i <= items@.len(),
            copy@ == items@.take(i as int),
        decreases items@.len() - i,
    {
        copy.push(items[i]);
        assert(items@.take(i + 1) =~= items@.take(i as int).push(items@[i as int]));
        i += 1;
    }
    assert(items@.take(items@.len() as int) =~= items@);
    copy
}

/// Sums and products of elements are those of their type.
pub proof fn law_elements_are_added_and_multiplied<E: Add<Output = E> + Mul<Output = E>>(
    x: E,
    y: E,
    z: E,
)
    ensures
        is_sum(x, y, z) <==> call_ensures(<E as Add>::add, (x, y), z),
        is_term(x, y, z) <==> call_ensures(<E as Mul>::mul, (x, y), z),
        E::obeys_add_spec() && is_sum(x, y, z) ==> z == x.add_spec(y),
        E::obeys_mul_spec() && is_term(x, y, z) ==> z == x.mul_spec(y),
{
}

/// A dot product of nothing is the default element.
pub proof fn law_empty_dot_is_the_default<E: Add<Output = E> + Mul<Output = E> + Default>(
    column: Seq<E>,
    dot: E,
)
    ensures
        is_dot(Seq::empty(), column, dot) <==> call_ensures(<E as Default>::default, (), dot),
{
    if call_ensures(<E as Default>::default, (), dot) {
        assert(running_sums(Seq::empty(), column, seq![dot]));
    }
}

/// A dot product adds the product of the last pair to the dot product of the pairs before it.
pub proof fn law_dot_adds_the_last_product<E: Add<Output = E> + Mul<Output = E> + Default>(
    row: Seq<E>,
    column: Seq<E>,
    dot: E,
) -> (parts: (E, E))
    requires
        row.len() > 0,
        row.len() == column.len(),
        is_dot(row, column, dot),
    ensures
        is_dot(row.drop_last(), column.drop_last(), parts.0),
        call_ensures(<E as Mul>::mul, (row.last(), column.last()), parts.1),
        call_ensures(<E as Add>::add, (parts.0, parts.1), dot),
{
    let sums = choose|sums: Seq<E>| #[trigger]
        running_sums(row, column, sums) && sums.last() == dot;
    let last = row.len() - 1;
    assert(accumulates(row[last], column[last], sums[last], sums[last + 1]));
    let term = choose|term: E| #[trigger]
        is_term(row[last], column[last], term) && is_sum(sums[last], term, sums[last + 1]);
    let fewer = sums.drop_last();
    assert forall|i: int| 0 <= i < last implies accumulates(
        row.drop_last()[i],
        column.drop_last()[i],
        #[trigger] fewer[i],
        fewer[i + 1],
    ) by {
        assert(accumulates(row[i], column[i], sums[i], sums[i + 1]));
    }
    assert(running_sums(row.drop_last(), column.drop_last(), fewer));
    (fewer.last(), term)
}

/// A cell of a matrix product lies in its data as many rows and cells from the front as it has
/// before it, and is a dot product of a row of the first matrix, whose cells lie beside each other,
/// and a column of the second, whose cells lie a row apart.
pub proof fn law_product_multiplies_rows_and_columns<
    E: Copy + Add<Output = E> + Mul<Output = E> + Default,
>(a: &Tensor<E>, b: &Tensor<E>, product: Tensor<E>, r: usize, c: usize)
    requires
        call_ensures(Tensor::<E>::matmul2d, (a, b), product),
        a.shape@.len() == 2,
        b.shape@.len() == 2,
        a.shape@[1] == b.shape@[0],
        r < a.shape@[0],
        c < b.shape@[1],
    ensures
        product.shape@ == seq![a.shape@[0], b.shape@[1]],
        product.data@.len() == a.shape@[0] * b.shape@[1],
        is_dot(
            Seq::new(a.shape@[1] as nat, |i: int| a.data@[r * a.shape@[1] + i]),
            Seq::new(b.shape@[0] as nat, |i: int| b.data@[i * b.shape@[1] + c]),
            product.data@[r * b.shape@[1] + c],
        ),
{
    let row = Seq::new(a.shape@[1] as nat, |i: int| a.data@[r * a.shape@[1] + i]);
    let column = Seq::new(b.shape@[0] as nat, |i: int| b.data@[i * b.shape@[1] + c]);
    assert forall|i: int| 0 <= i < row.len() implies row[i] == a.matrix_row(r)[i] by {
        lemma_flat_index_matrix(a.shape@, r, i as usize);
    }
    assert forall|i: int| 0 <= i < column.len() implies column[i] == b.matrix_column(c)[i] by {
        lemma_flat_index_matrix(b.shape@, i as usize, c);
    }
    assert(row =~= a.matrix_row(r));
    assert(column =~= b.matrix_column(c));
    lemma_flat_index_matrix(product.shape@, r, c);
    assert(is_dot(a.matrix_row(r), b.matrix_column(c), product.cell(r, c)));
}

/// A sum adds the elements at the same place of two tensors of one shape, and to a cell of a matrix
/// the cell of a vector that lies in the same column. Two tensors of other shapes have none.
pub proof fn law_sum_adds_cell_by_cell<E: Copy + Add<Output = E>>(
    a: &Tensor<E>,
    b: &Tensor<E>,
    sum: Option<Tensor<E>>,
)
    requires
        call_ensures(Tensor::<E>::add, (a, b), sum),
    ensures
        sum is Some <==> a.shape@ == b.shape@ || (a.shape@.len() == 2 && b.shape@.len() == 1),
        sum is Some ==> sum->0.shape@ == a.shape@ && sum->0.data@.len() == a.data@.len(),
        sum is Some && a.shape@ == b.shape@ ==> forall|i: int|
            0 <= i < a.data@.len() ==> call_ensures(
                <E as Add>::add,
                (a.data@[i], b.data@[i]),
                #[trigger] sum->0.data@[i],
            ),
        sum is Some && a.shape@ != b.shape@ ==> forall|r: int, c: int|
            0 <= r < a.shape@[0] && 0 <= c < a.shape@[1] && r * a.shape@[1] + c < a.data@.len()
                ==> call_ensures(
                <E as Add>::add,
                (a.data@[r * a.shape@[1] + c], b.data@[c]),
                #[trigger] sum->0.data@[r * a.shape@[1] + c],
            ),
{
    if sum is Some && a.shape@ == b.shape@ {
        assert forall|i: int| 0 <= i < a.data@.len() implies call_ensures(
            <E as Add>::add,
            (a.data@[i], b.data@[i]),
            #[trigger] sum->0.data@[i],
        ) by {
            assert(is_sum(a.data@[i], b.data@[i], sum->0.data@[i]));
        }
    }
    if sum is Some && a.shape@ != b.shape@ {
        let cols = a.shape@[1] as int;
        assert forall|r: int, c: int|
            0 <= r < a.shape@[0] && 0 <= c < cols && r * cols + c
                < a.data@.len() implies call_ensures(
            <E as Add>::add,
            (a.data@[r * cols + c], b.data@[c]),
            #[trigger] sum->0.data@[r * cols + c],
        ) by {
            lemma_cell_in_table(r, c, a.shape@[0] as int, cols);
            vstd::arithmetic::div_mod::lemma_fundamental_div_mod_converse(
                r * cols + c,
                cols,
                r,
                c,
            );
            let i = r * cols + c;
            assert(is_sum(a.data@[i], b.data@[i % cols], sum->0.data@[i]));
        }
    }
}

/// A cell of a matrix is read as many rows and cells from the front as it has before it.
pub proof fn law_matrix_cell_lies_in_its_row<E: Copy>(
    t: &Tensor<E>,
    targets: &[usize],
    element: E,
)
    requires
        call_ensures(Tensor::<E>::get, (t, targets), element),
        t.shape@.len() == 2,
        targets@.len() == 2,
    ensures
        element == t.data@[targets@[0] * t.shape@[1] + targets@[1]],
{
    lemma_flat_index_matrix(t.shape@, targets@[0], targets@[1]);
    assert(targets@ =~= seq![targets@[0], targets@[1]]);
}

/// A tensor of one weight has as many elements as its shape has cells.
pub proof fn law_weight_fills_every_cell<E: Copy>(
    shape: &[usize],
    weight: E,
    tensor: Tensor<E>,
    i: int,
)
    requires
        call_ensures(Tensor::<E>::from_random, (shape, weight), tensor),
        0 <= i < tensor.data@.len(),
    ensures
        tensor.shape@ == shape@,
        tensor.data@.len() == product(shape@),
        tensor.data@[i] == weight,
{
}

/// An index counts, dimension by dimension, blocks of the dimensions behind: a step along the first
/// dimension skips as many elements as the shape without it has.
pub proof fn law_index_counts_blocks(targets: Seq<usize>, shape: Seq<usize>)
    requires
        0 < targets.len() <= shape.len(),
    ensures
        flat_index(Seq::empty(), row_major_strides(shape)) == 0,
        flat_index(targets, row_major_strides(shape)) == targets[0] * product(shape.drop_first())
            + flat_index(targets.drop_first(), row_major_strides(shape.drop_first())),
{
    lemma_strides_drop_first(shape);
}

/// A tensor that is made keeps its data and its shape, and its strides count the elements of the
/// dimensions behind each.
pub proof fn law_new_tensor_is_row_major<E>(
    data: Vec<E>,
    shape: &[usize],
    tensor: Tensor<E>,
    i: int,
)
    requires
        call_ensures(Tensor::<E>::new, (data, shape), tensor),
        0 <= i < shape@.len(),
    ensures
        tensor.data@ == data@,
        tensor.shape@ == shape@,
        tensor.strides@.len() == shape@.len(),
        tensor.strides@[i] == product(shape@.skip(i + 1)),
{
    assert(tensor.strides@[i] == row_major_strides(tensor.shape@)[i]);
}

/// An element is read where the index of its targets points to.
pub proof fn law_element_is_read_at_its_index<E: Copy>(
    t: &Tensor<E>,
    targets: &[usize],
    element: E,
)
    requires
        call_ensures(Tensor::<E>::get, (t, targets), element),
    ensures
        element == t.data@[flat_index(targets@, row_major_strides(t.shape@)) as int],
{
}

} // verus!
