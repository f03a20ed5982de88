use vstd::prelude::*;
use vstd::std_specs::ops::{AddSpec, MulSpec, SubSpec};

verus! {

/// The scalar types a matrix can hold: copyable values with the four
/// arithmetic operators, negation and a conversion from small integers.
pub trait Scalar: Copy + core::ops::Add<Output = Self> + core::ops::Sub<
    Output = Self,
> + core::ops::Mul<Output = Self> + core::ops::Div<Output = Self> + core::ops::Neg<
    Output = Self,
> + core::convert::From<u8> {

}

impl<
    T: Copy + core::ops::Add<Output = T> + core::ops::Sub<Output = T> + core::ops::Mul<
        Output = T,
    > + core::ops::Div<Output = T> + core::ops::Neg<Output = T> + core::convert::From<u8>,
> Scalar for T {

}

/// The scalar's `+`, `-` and `*` are defined on every pair of values (no
/// overflow guard can fail), as they are for floating-point numbers.
pub open spec fn total<T: Scalar>() -> bool {
    &&& forall|x: T, y: T| #[trigger] x.add_req(y)
    &&& forall|x: T, y: T| #[trigger] x.sub_req(y)
    &&& forall|x: T, y: T| #[trigger] x.mul_req(y)
}

/// The scalar's `+`, `-` and `*` compute what their spec functions say.
pub open spec fn lawful<T: Scalar>() -> bool {
    &&& T::obeys_add_spec()
    &&& T::obeys_sub_spec()
    &&& T::obeys_mul_spec()
}

/// Elementwise sum of two sequences.
pub open spec fn sum_of<T: Scalar>(a: Seq<T>, b: Seq<T>) -> Seq<T> {
    Seq::new(a.len(), |i: int| a[i].add_spec(b[i]))
}

/// Elementwise difference of two sequences.
pub open spec fn diff_of<T: Scalar>(a: Seq<T>, b: Seq<T>) -> Seq<T> {
    Seq::new(a.len(), |i: int| a[i].sub_spec(b[i]))
}

/// Elementwise product of two sequences.
pub open spec fn hadamard_of<T: Scalar>(a: Seq<T>, b: Seq<T>) -> Seq<T> {
    Seq::new(a.len(), |i: int| a[i].mul_spec(b[i]))
}

/// Every element multiplied by `k`.
pub open spec fn scaled_of<T: Scalar>(a: Seq<T>, k: T) -> Seq<T> {
    Seq::new(a.len(), |i: int| a[i].mul_spec(k))
}

/// A dense matrix, stored row-major: entry `(r, c)` is `data[r * cols + c]`.
#[derive(Clone, Debug, PartialEq)]
pub struct Matrix<T> {
    pub rows: usize,
    pub cols: usize,
    pub data: Vec<T>,
}

/// The row-major index `i * cols + j` of an entry of a `rows x cols` matrix
/// lies inside it and gives back the entry's row and column.
pub proof fn lemma_index_bounds(i: int, j: int, rows: int, cols: int)
    requires
        0 <= i < rows,
        0 <= j < cols,
    ensures
        0 <= i * cols + j < rows * cols,
        (i * cols + j) / cols == i,
        (i * cols + j) % cols == j,
{
    assert(0 <= i * cols + j < rows * cols) by (nonlinear_arith)
        requires
            0 <= i < rows,
            0 <= j < cols,
    ;
    vstd::arithmetic::div_mod::lemma_fundamental_div_mod_converse(i * cols + j, cols, i, j);
}

impl<T> Matrix<T> {
    /// The stored values number exactly `rows * cols`.
    pub open spec fn wf(&self) -> bool {
        self.data.len() == self.rows * self.cols
    }

    /// The entry at row `i`, column `j`.
    pub open spec fn at(&self, i: int, j: int) -> T {
        self.data@[i * self.cols + j]
    }

    /// Same shape and same entries.
    pub open spec fn same(&self, o: &Matrix<T>) -> bool {
        self.rows == o.rows && self.cols == o.cols && self.data@ == o.data@
    }

    /// The transpose of this matrix, row-major.
    pub open spec fn transposed(&self) -> Seq<T> {
        transposed_of(self.data@, self.rows as int, self.cols as int)
    }

    /// The product `self * rhs`, row-major.
    pub open spec fn product(&self, rhs: &Matrix<T>) -> Seq<T> where T: Scalar {
        product_of(self.data@, self.rows as int, self.cols as int, rhs.data@, rhs.cols as int)
    }

    /// A column matrix holding `values` from top to bottom.
    pub fn from(values: Vec<T>) -> (r: Matrix<T>)
        ensures
            r.wf(),
            r.rows == values.len(),
            r.cols == 1,
            r.data@ == values@,
    {
        let rows = values.len();
        Matrix { rows, cols: 1, data: values }
    }

    /// A `rows x cols` matrix whose entries are successive draws of `sample`.
    pub fn random<F: Fn() -> T>(rows: usize, cols: usize, sample: &F) -> (r: Matrix<T>)
        requires
            rows * cols <= usize::MAX,
            call_requires(*sample, ()),
        ensures
            r.wf(),
            r.rows == rows,
            r.cols == cols,
            forall|k: int| 0 <= k < r.data.len() ==> call_ensures(*sample, (), #[trigger] r.data@[k]),
    {
        let n: usize = rows * cols;
        let mut buffer: Vec<T> = Vec::with_capacity(n);
        let mut k: usize = 0;
        while k < n
            invariant
                k <= n,
                buffer.len() == k,
                call_requires(*sample, ()),
                forall|m: int| 0 <= m < k ==> call_ensures(*sample, (), #[trigger] buffer@[m]),
            decreases n - k,
        {
            buffer.push(sample());
            k = k + 1;
        }
        Matrix { rows, cols, data: buffer }
    }

    /// Applies `func` to every entry, keeping the shape.
    pub fn map<F: Fn(T) -> T>(&self, func: &F) -> (r: Matrix<T>) where T: Copy
        requires
            self.wf(),
            forall|x: T| call_requires(*func, (x,)),
        ensures
            r.wf(),
            r.rows == self.rows,
            r.cols == self.cols,
            forall|k: int|
                0 <= k < r.data.len() ==> call_ensures(*func, (self.data@[k],), #[trigger] r.data@[k]),
    {
        let n = self.data.len();
        let mut buffer: Vec<T> = Vec::with_capacity(n);
        let mut k: usize = 0;
        while k < n
            invariant
                k <= n,
                n == self.data.len(),
                buffer.len() == k,
                forall|x: T| call_requires(*func, (x,)),
                forall|m: int|
                    0 <= m < k ==> call_ensures(*func, (self.data@[m],), #[trigger] buffer@[m]),
            decreases n - k,
        {
            buffer.push(func(self.data[k]));
            k = k + 1;
        }
        Matrix { rows: self.rows, cols: self.cols, data: buffer }
    }

    /// A copy of this matrix.
    pub fn duplicate(&self) -> (r: Matrix<T>) where T: Copy
        ensures
            r.same(self),
    {
        let n = self.data.len();
        let mut buffer: Vec<T> = Vec::with_capacity(n);
        let mut k: usize = 0;
        while k < n
            invariant
                k <= n,
                n == self.data.len(),
                buffer@ == self.data@.subrange(0, k as int),
            decreases n - k,
        {
            buffer.push(self.data[k]);
            k = k + 1;
            assert(buffer@ =~= self.data@.subrange(0, k as int));
        }
        assert(buffer@ =~= self.data@);
        Matrix { rows: self.rows, cols: self.cols, data: buffer }
    }

    /// Exchanges rows and columns: entry `(j, i)` of the result is entry `(i, j)` here.
    pub fn transpose(&self) -> (r: Matrix<T>) where T: Copy
        requires
            self.wf(),
        ensures
            r.wf(),
            r.rows == self.cols,
            r.cols == self.rows,
            r.data@ == self.transposed(),
            forall|i: int, j: int|
                0 <= i < self.rows && 0 <= j < self.cols ==> #[trigger] r.at(j, i) == self.at(i, j),
    {
        let mut buffer: Vec<T> = Vec::with_capacity(self.data.len());
        let mut j: usize = 0;
        while j < self.cols
            invariant
                self.wf(),
                j <= self.cols,
                buffer.len() == j * self.rows,
                forall|k: int| 0 <= k < buffer.len() ==> #[trigger] buffer@[k] == self.transposed()[k],
            decreases self.cols - j,
        {
            let mut i: usize = 0;
            while i < self.rows
                invariant
                    self.wf(),
                    j < self.cols,
                    i <= self.rows,
                    buffer.len() == j * self.rows + i,
                    forall|k: int| 0 <= k < buffer.len() ==> #[trigger] buffer@[k] == self.transposed()[k],
                decreases self.rows - i,
            {
                proof {
                    lemma_index_bounds(i as int, j as int, self.rows as int, self.cols as int);
                    lemma_index_bounds(j as int, i as int, self.cols as int, self.rows as int);
                    assert(self.rows * self.cols == self.cols * self.rows) by (nonlinear_arith);
                }
                buffer.push(self.data[i * self.cols + j]);
                i = i + 1;
            }
            proof {
                assert((j + 1) * self.rows == j * self.rows + self.rows) by (nonlinear_arith);
            }
            j = j + 1;
        }
        proof {
            assert(self.cols * self.rows == self.rows * self.cols) by (nonlinear_arith);
        }
        assert(buffer@ == self.transposed());
        let r = Matrix { rows: self.cols, cols: self.rows, data: buffer };
        proof {
            assert forall|i: int, j: int|
                0 <= i < self.rows && 0 <= j < self.cols implies #[trigger] r.at(j, i) == self.at(
                i,
                j,
            ) by {
                lemma_index_bounds(j, i, self.cols as int, self.rows as int);
            }
        }
        r
    }
}

/// Entry `(i, j)` of the product of `a` (with `ac` columns) and `b` (with `bc`
/// columns), both row-major, summed over the first `n` terms in order:
/// `a(i,0)*b(0,j) + a(i,1)*b(1,j) + ...`.
pub open spec fn dot_partial<T: Scalar>(a: Seq<T>, ac: int, b: Seq<T>, bc: int, i: int, j: int, n: nat) -> T
    decreases n,
{
    if n <= 1 {
        a[i * ac].mul_spec(b[j])
    } else {
        dot_partial(a, ac, b, bc, i, j, (n - 1) as nat).add_spec(
            a[i * ac + n - 1].mul_spec(b[(n - 1) * bc + j]),
        )
    }
}

/// The product of an `ar x ac` matrix `a` and an `ac x bc` matrix `b`, both
/// row-major, as the row-major sequence of an `ar x bc` matrix.
pub open spec fn product_of<T: Scalar>(a: Seq<T>, ar: int, ac: int, b: Seq<T>, bc: int) -> Seq<T> {
    Seq::new((ar * bc) as nat, |k: int| dot_partial(a, ac, b, bc, k / bc, k % bc, ac as nat))
}

/// Step `t` of entry `(i, j)` of the product of `a` and `b` is defined: the
/// product `a(i,t)*b(t,j)`, and, past the first step, its sum with the terms
/// before it.
pub open spec fn step_defined<T: Scalar>(a: Seq<T>, ac: int, b: Seq<T>, bc: int, i: int, j: int, t: int) -> bool {
    &&& a[i * ac + t].mul_req(b[t * bc + j])
    &&& t > 0 ==> dot_partial(a, ac, b, bc, i, j, t as nat).add_req(
        a[i * ac + t].mul_spec(b[t * bc + j]),
    )
}

/// Every product and every running sum that the product of an `ar x ac`
/// matrix `a` and an `ac x bc` matrix `b` forms is defined.
pub open spec fn product_defined<T: Scalar>(a: Seq<T>, ar: int, ac: int, b: Seq<T>, bc: int) -> bool {
    forall|i: int, j: int, t: int|
        0 <= i < ar && 0 <= j < bc && 0 <= t < ac ==> #[trigger] step_defined(a, ac, b, bc, i, j, t)
}

/// The transpose of the row-major `rows x cols` matrix `a`, as the row-major
/// sequence of a `cols x rows` matrix.
pub open spec fn transposed_of<T>(a: Seq<T>, rows: int, cols: int) -> Seq<T> {
    Seq::new((rows * cols) as nat, |k: int| a[(k % rows) * cols + k / rows])
}

impl<T: Scalar> Matrix<T> {
    /// Entrywise sum of two matrices of the same shape.
    pub fn add(&self, rhs: &Matrix<T>) -> (r: Matrix<T>)
        requires
            self.wf(),
            rhs.wf(),
            self.rows == rhs.rows,
            self.cols == rhs.cols,
            forall|k: int| 0 <= k < self.data.len() ==> #[trigger] self.data@[k].add_req(rhs.data@[k]),
        ensures
            r.wf(),
            r.rows == self.rows,
            r.cols == self.cols,
            lawful::<T>() ==> r.data@ == sum_of(self.data@, rhs.data@),
    {
        let n = self.data.len();
        let mut buffer: Vec<T> = Vec::with_capacity(n);
        let mut k: usize = 0;
        while k < n
            invariant
                k <= n,
                n == self.data.len(),
                n == rhs.data.len(),
                buffer.len() == k,
                forall|m: int| 0 <= m < n ==> #[trigger] self.data@[m].add_req(rhs.data@[m]),
                lawful::<T>() ==> forall|m: int|
                    0 <= m < k ==> #[trigger] buffer@[m] == self.data@[m].add_spec(rhs.data@[m]),
            decreases n - k,
        {
            assert(self.data@[k as int].add_req(rhs.data@[k as int]));
            buffer.push(self.data[k] + rhs.data[k]);
            k = k + 1;
        }
        proof {
            if lawful::<T>() {
                assert(buffer@ =~= sum_of(self.data@, rhs.data@));
            }
        }
        Matrix { rows: self.rows, cols: self.cols, data: buffer }
    }

    /// Entrywise difference `self - rhs` of two matrices of the same shape.
    pub fn sub(&self, rhs: &Matrix<T>) -> (r: Matrix<T>)
        requires
            self.wf(),
            rhs.wf(),
            self.rows == rhs.rows,
            self.cols == rhs.cols,
            forall|k: int| 0 <= k < self.data.len() ==> #[trigger] self.data@[k].sub_req(rhs.data@[k]),
        ensures
            r.wf(),
            r.rows == self.rows,
            r.cols == self.cols,
            lawful::<T>() ==> r.data@ == diff_of(self.data@, rhs.data@),
    {
        let n = self.data.len();
        let mut buffer: Vec<T> = Vec::with_capacity(n);
        let mut k: usize = 0;
        while k < n
            invariant
                k <= n,
                n == self.data.len(),
                n == rhs.data.len(),
                buffer.len() == k,
                forall|m: int| 0 <= m < n ==> #[trigger] self.data@[m].sub_req(rhs.data@[m]),
                lawful::<T>() ==> forall|m: int|
                    0 <= m < k ==> #[trigger] buffer@[m] == self.data@[m].sub_spec(rhs.data@[m]),
            decreases n - k,
        {
            assert(self.data@[k as int].sub_req(rhs.data@[k as int]));
            buffer.push(self.data[k] - rhs.data[k]);
            k = k + 1;
        }
        proof {
            if lawful::<T>() {
                assert(buffer@ =~= diff_of(self.data@, rhs.data@));
            }
        }
        Matrix { rows: self.rows, cols: self.cols, data: buffer }
    }

    /// Entrywise (Hadamard) product of two matrices of the same shape.
    pub fn elementwise_multiply(&self, rhs: &Matrix<T>) -> (r: Matrix<T>)
        requires
            self.wf(),
            rhs.wf(),
            self.rows == rhs.rows,
            self.cols == rhs.cols,
            forall|k: int| 0 <= k < self.data.len() ==> #[trigger] self.data@[k].mul_req(rhs.data@[k]),
        ensures
            r.wf(),
            r.rows == self.rows,
            r.cols == self.cols,
            lawful::<T>() ==> r.data@ == hadamard_of(self.data@, rhs.data@),
    {
        let n = self.data.len();
        let mut buffer: Vec<T> = Vec::with_capacity(n);
        let mut k: usize = 0;
        while k < n
            invariant
                k <= n,
                n == self.data.len(),
                n == rhs.data.len(),
                buffer.len() == k,
                forall|m: int| 0 <= m < n ==> #[trigger] self.data@[m].mul_req(rhs.data@[m]),
                lawful::<T>() ==> forall|m: int|
                    0 <= m < k ==> #[trigger] buffer@[m] == self.data@[m].mul_spec(rhs.data@[m]),
            decreases n - k,
        {
            assert(self.data@[k as int].mul_req(rhs.data@[k as int]));
            buffer.push(self.data[k] * rhs.data[k]);
            k = k + 1;
        }
        proof {
            if lawful::<T>() {
                assert(buffer@ =~= hadamard_of(self.data@, rhs.data@));
            }
        }
        Matrix { rows: self.rows, cols: self.cols, data: buffer }
    }

    /// Every entry multiplied by `k`.
    pub fn scale(&self, factor: T) -> (r: Matrix<T>)
        requires
            self.wf(),
            forall|k: int| 0 <= k < self.data.len() ==> #[trigger] self.data@[k].mul_req(factor),
        ensures
            r.wf(),
            r.rows == self.rows,
            r.cols == self.cols,
            lawful::<T>() ==> r.data@ == scaled_of(self.data@, factor),
    {
        let n = self.data.len();
        let mut buffer: Vec<T> = Vec::with_capacity(n);
        let mut k: usize = 0;
        while k < n
            invariant
                k <= n,
                n == self.data.len(),
                buffer.len() == k,
                forall|m: int| 0 <= m < n ==> #[trigger] self.data@[m].mul_req(factor),
                lawful::<T>() ==> forall|m: int|
                    0 <= m < k ==> #[trigger] buffer@[m] == self.data@[m].mul_spec(factor),
            decreases n - k,
        {
            assert(self.data@[k as int].mul_req(factor));
            buffer.push(self.data[k] * factor);
            k = k + 1;
        }
        proof {
            if lawful::<T>() {
                assert(buffer@ =~= scaled_of(self.data@, factor));
            }
        }
        Matrix { rows: self.rows, cols: self.cols, data: buffer }
    }

    /// The matrix product `self * rhs`; each entry is summed in order of the
    /// inner index.
    pub fn dot_prod(&self, rhs: &Matrix<T>) -> (r: Matrix<T>)
        requires
            self.wf(),
            rhs.wf(),
            self.cols == rhs.rows,
            self.cols > 0,
            total::<T>() || (lawful::<T>() && product_defined(
                self.data@,
                self.rows as int,
                self.cols as int,
                rhs.data@,
                rhs.cols as int,
            )),
        ensures
            r.wf(),
            r.rows == self.rows,
            r.cols == rhs.cols,
            lawful::<T>() ==> r.data@ == product_of(
                self.data@,
                self.rows as int,
                self.cols as int,
                rhs.data@,
                rhs.cols as int,
            ),
    {
        let mut buffer: Vec<T> = Vec::new();
        let mut i: usize = 0;
        while i < self.rows
            invariant
                self.wf(),
                rhs.wf(),
                self.cols == rhs.rows,
                self.cols > 0,
                total::<T>() || (lawful::<T>() && product_defined(
                    self.data@,
                    self.rows as int,
                    self.cols as int,
                    rhs.data@,
                    rhs.cols as int,
                )),
                i <= self.rows,
                buffer.len() == i * rhs.cols,
                lawful::<T>() ==> forall|m: int|
                    0 <= m < buffer.len() ==> #[trigger] buffer@[m] == self.product(rhs)[m],
            decreases self.rows - i,
        {
            let mut j: usize = 0;
            while j < rhs.cols
                invariant
                    self.wf(),
                    rhs.wf(),
                    self.cols == rhs.rows,
                    self.cols > 0,
                    total::<T>() || (lawful::<T>() && product_defined(
                    self.data@,
                    self.rows as int,
                    self.cols as int,
                    rhs.data@,
                    rhs.cols as int,
                )),
                    i < self.rows,
                    j <= rhs.cols,
                    buffer.len() == i * rhs.cols + j,
                    lawful::<T>() ==> forall|m: int|
                        0 <= m < buffer.len() ==> #[trigger] buffer@[m] == self.product(rhs)[m],
                decreases rhs.cols - j,
            {
                proof {
                    lemma_index_bounds(i as int, 0, self.rows as int, self.cols as int);
                    lemma_index_bounds(0, j as int, rhs.rows as int, rhs.cols as int);
                }
                proof {
                    if !total::<T>() {
                        assert(step_defined(
                            self.data@,
                            self.cols as int,
                            rhs.data@,
                            rhs.cols as int,
                            i as int,
                            j as int,
                            0,
                        ));
                    }
                }
                let mut sum: T = self.data[i * self.cols] * rhs.data[j];
                let mut k: usize = 1;
                while k < self.cols
                    invariant
                        self.wf(),
                        rhs.wf(),
                        self.cols == rhs.rows,
                        total::<T>() || (lawful::<T>() && product_defined(
                    self.data@,
                    self.rows as int,
                    self.cols as int,
                    rhs.data@,
                    rhs.cols as int,
                )),
                        i < self.rows,
                        j < rhs.cols,
                        1 <= k <= self.cols,
                        lawful::<T>() ==> sum == dot_partial(
                            self.data@,
                            self.cols as int,
                            rhs.data@,
                            rhs.cols as int,
                            i as int,
                            j as int,
                            k as nat,
                        ),
                    decreases self.cols - k,
                {
                    proof {
                        lemma_index_bounds(i as int, k as int, self.rows as int, self.cols as int);
                        lemma_index_bounds(k as int, j as int, rhs.rows as int, rhs.cols as int);
                    }
                    proof {
                        if !total::<T>() {
                            assert(step_defined(
                                self.data@,
                                self.cols as int,
                                rhs.data@,
                                rhs.cols as int,
                                i as int,
                                j as int,
                                k as int,
                            ));
                        }
                    }
                    let term: T = self.data[i * self.cols + k] * rhs.data[k * rhs.cols + j];
                    sum = sum + term;
                    k = k + 1;
                }
                proof {
                    lemma_index_bounds(i as int, j as int, self.rows as int, rhs.cols as int);
                }
                buffer.push(sum);
                j = j + 1;
            }
            proof {
                assert((i + 1) * rhs.cols == i * rhs.cols + rhs.cols) by (nonlinear_arith);
            }
            i = i + 1;
        }
        proof {
            if lawful::<T>() {
                assert(buffer@ =~= self.product(rhs));
            }
        }
        Matrix { rows: self.rows, cols: rhs.cols, data: buffer }
    }
}

} // verus!
