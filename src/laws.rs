use crate::matrix::{
    diff_of, dot_partial, hadamard_of, lemma_index_bounds, product_of, sum_of, transposed_of,
    Matrix, Scalar,
};
use vstd::prelude::*;
use vstd::std_specs::ops::{AddSpec, MulSpec, NegSpec, SubSpec};

verus! {

/// Every element negated.
pub open spec fn negated_of<T: Scalar>(a: Seq<T>) -> Seq<T> {
    Seq::new(a.len(), |i: int| a[i].neg_spec())
}

/// The `n x n` identity matrix built from the scalars `one` and `zero`, row-major.
pub open spec fn identity_of<T>(n: int, one: T, zero: T) -> Seq<T> {
    Seq::new((n * n) as nat, |k: int| if k / n == k % n { one } else { zero })
}

/// Transposing twice gives back the matrix: the transpose of `m`'s transpose
/// (a `cols x rows` matrix) holds `m`'s entries in `m`'s order.
pub proof fn transpose_twice<T>(m: Matrix<T>)
    requires
        m.wf(),
    ensures
        transposed_of(m.transposed(), m.cols as int, m.rows as int) == m.data@,
{
    let r = m.rows as int;
    let c = m.cols as int;
    let inner = m.transposed();
    let outer = transposed_of(inner, c, r);
    assert(c * r == r * c) by (nonlinear_arith);
    assert forall|k: int| 0 <= k < outer.len() implies #[trigger] outer[k] == m.data@[k] by {
        assert(c > 0) by (nonlinear_arith)
            requires
                0 <= k < r * c,
                0 <= r,
                0 <= c,
        ;
        let i = k / c;
        let j = k % c;
        vstd::arithmetic::div_mod::lemma_fundamental_div_mod(k, c);
        assert(0 <= i < r) by (nonlinear_arith)
            requires
                k == c * i + j,
                0 <= j < c,
                0 <= k < r * c,
        ;
        assert(k == i * c + j) by (nonlinear_arith)
            requires
                k == c * i + j,
        ;
        lemma_index_bounds(j, i, c, r);
        let q = j * r + i;
        assert(q % r == i && q / r == j);
        assert(outer[k] == inner[q]);
        assert(inner[q] == m.at(i, j));
    }
    assert(outer =~= m.data@);
}

/// Matrix addition commutes when the scalar addition does.
pub proof fn add_commutes<T: Scalar>(a: Seq<T>, b: Seq<T>)
    requires
        a.len() == b.len(),
        forall|x: T, y: T| #[trigger] x.add_spec(y) == y.add_spec(x),
    ensures
        sum_of(a, b) == sum_of(b, a),
{
    assert(sum_of(a, b) =~= sum_of(b, a));
}

/// `a - b` is the negation of `b - a` when that holds of every pair of scalars.
pub proof fn sub_antisymmetric<T: Scalar>(a: Seq<T>, b: Seq<T>)
    requires
        a.len() == b.len(),
        forall|x: T, y: T| #[trigger] x.sub_spec(y) == y.sub_spec(x).neg_spec(),
    ensures
        diff_of(a, b) == negated_of(diff_of(b, a)),
{
    assert(diff_of(a, b) =~= negated_of(diff_of(b, a)));
}

/// The entrywise product commutes when the scalar product does.
pub proof fn elementwise_multiply_commutes<T: Scalar>(a: Seq<T>, b: Seq<T>)
    requires
        a.len() == b.len(),
        forall|x: T, y: T| #[trigger] x.mul_spec(y) == y.mul_spec(x),
    ensures
        hadamard_of(a, b) == hadamard_of(b, a),
{
    assert(hadamard_of(a, b) =~= hadamard_of(b, a));
}

/// The entrywise product distributes over addition when the scalar product
/// distributes over scalar addition.
pub proof fn elementwise_multiply_distributes<T: Scalar>(a: Seq<T>, b: Seq<T>, c: Seq<T>)
    requires
        a.len() == b.len(),
        b.len() == c.len(),
        forall|x: T, y: T, z: T| #[trigger] x.mul_spec(y.add_spec(z)) == x.mul_spec(y).add_spec(x.mul_spec(z)),
    ensures
        hadamard_of(a, sum_of(b, c)) == sum_of(hadamard_of(a, b), hadamard_of(a, c)),
{
    assert(hadamard_of(a, sum_of(b, c)) =~= sum_of(hadamard_of(a, b), hadamard_of(a, c)));
}

proof fn identity_partial<T: Scalar>(a: Seq<T>, m: int, n: int, one: T, zero: T, i: int, j: int, t: nat)
    requires
        a.len() == m * n,
        0 <= i < m,
        0 <= j < n,
        1 <= t <= n,
        forall|x: T| #[trigger] x.mul_spec(one) == x,
        forall|x: T| #[trigger] x.mul_spec(zero) == zero,
        forall|x: T| #[trigger] x.add_spec(zero) == x,
        forall|x: T| #[trigger] zero.add_spec(x) == x,
    ensures
        dot_partial(a, n, identity_of(n, one, zero), n, i, j, t) == if j < t {
            a[i * n + j]
        } else {
            zero
        },
    decreases t,
{
    let id = identity_of(n, one, zero);
    lemma_index_bounds(i, 0, m, n);
    lemma_index_bounds((t - 1) as int, j, n, n);
    lemma_index_bounds(0, j, n, n);
    if t > 1 {
        identity_partial(a, m, n, one, zero, i, j, (t - 1) as nat);
        lemma_index_bounds(i, t - 1, m, n);
    }
}

/// A product keeps the outer sizes, and multiplying by the identity gives
/// back the matrix, for scalars where `one` and `zero` behave as such.
pub proof fn product_with_identity<T: Scalar>(a: Seq<T>, m: int, n: int, one: T, zero: T)
    requires
        a.len() == m * n,
        0 <= m,
        0 < n,
        forall|x: T| #[trigger] x.mul_spec(one) == x,
        forall|x: T| #[trigger] x.mul_spec(zero) == zero,
        forall|x: T| #[trigger] x.add_spec(zero) == x,
        forall|x: T| #[trigger] zero.add_spec(x) == x,
    ensures
        product_of(a, m, n, identity_of(n, one, zero), n).len() == m * n,
        product_of(a, m, n, identity_of(n, one, zero), n) == a,
{
    let p = product_of(a, m, n, identity_of(n, one, zero), n);
    assert(0 <= m * n) by (nonlinear_arith)
        requires
            0 <= m,
            0 < n,
    ;
    assert forall|k: int| 0 <= k < p.len() implies #[trigger] p[k] == a[k] by {
        let i = k / n;
        let j = k % n;
        vstd::arithmetic::div_mod::lemma_fundamental_div_mod(k, n);
        assert(0 <= i < m) by (nonlinear_arith)
            requires
                k == n * i + j,
                0 <= j < n,
                0 <= k < m * n,
        ;
        identity_partial(a, m, n, one, zero, i, j, n as nat);
        assert(i * n + j == k) by (nonlinear_arith)
            requires
                k == n * i + j,
        ;
    }
    assert(p =~= a);
}

} // verus!
