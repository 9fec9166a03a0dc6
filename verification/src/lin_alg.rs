//! Packed storage of symmetric matrices and the quadratic form over it.
//!
//! A symmetric `dim x dim` matrix is held as its lower triangle, row after
//! row: row `i` holds the entries `(i, 0), .., (i, i)`, so it starts at
//! position `tri(i) = 0 + 1 + .. + i` and the whole matrix takes `tri(dim)`
//! positions.

use vstd::prelude::*;

use crate::scalar::{exact_ring, Scalar};

verus! {

/// `0 + 1 + .. + n`: where row `n` of a packed lower triangle starts, and how
/// many entries `n` full rows take.
pub open spec fn tri(n: nat) -> nat
    decreases n,
{
    if n == 0 {
        0
    } else {
        tri((n - 1) as nat) + n
    }
}

/// Position of entry `(i, j)` of a symmetric matrix in its packed lower
/// triangle: the entry is read from row `max(i, j)`, column `min(i, j)`.
pub open spec fn packed_pos(i: nat, j: nat) -> nat {
    if i >= j {
        tri(i) + j
    } else {
        tri(j) + i
    }
}

/// `tri` in closed form: `2 * tri(n) == n * (n + 1)`.
pub proof fn lemma_tri_closed_form(n: nat)
    ensures
        2 * tri(n) == n * (n + 1),
    decreases n,
{
    if n > 0 {
        let m = (n - 1) as nat;
        lemma_tri_closed_form(m);
        assert(tri(n) == tri(m) + n);
        assert(n * (n + 1) == m * (m + 1) + 2 * n) by (nonlinear_arith)
            requires
                m + 1 == n,
        ;
    } else {
        assert(n * (n + 1) == 0) by (nonlinear_arith)
            requires
                n == 0,
        ;
    }
}

/// `tri` grows with its argument.
pub proof fn lemma_tri_monotone(m: nat, n: nat)
    requires
        m <= n,
    ensures
        tri(m) <= tri(n),
    decreases n,
{
    if m < n {
        lemma_tri_monotone(m, (n - 1) as nat);
    }
}

/// The packed position does not depend on the order of the indices: the
/// matrix is symmetric.
pub proof fn lemma_packed_pos_symmetric(i: nat, j: nat)
    ensures
        packed_pos(i, j) == packed_pos(j, i),
{
}

/// Every entry of a `dim x dim` matrix lies inside its packed triangle.
pub proof fn lemma_packed_pos_in_range(i: nat, j: nat, dim: nat)
    requires
        i < dim,
        j < dim,
    ensures
        packed_pos(i, j) < tri(dim),
{
    let hi = if i >= j { i } else { j };
    lemma_tri_monotone(hi + 1, dim);
}

/// Two index pairs share a packed position exactly when they name the same
/// entry of the symmetric matrix.
pub proof fn lemma_packed_pos_injective(i: nat, j: nat, k: nat, l: nat)
    requires
        packed_pos(i, j) == packed_pos(k, l),
    ensures
        (i == k && j == l) || (i == l && j == k),
{
    let a = if i >= j { i } else { j };
    let b = if i >= j { j } else { i };
    let c = if k >= l { k } else { l };
    let d = if k >= l { l } else { k };
    // packed_pos(i, j) == tri(a) + b with b <= a, so it lies in [tri(a), tri(a + 1)).
    if a < c {
        lemma_tri_monotone(a + 1, c);
    } else if c < a {
        lemma_tri_monotone(c + 1, a);
    }
}

/// Every position of the packed triangle of a `dim x dim` matrix holds an
/// entry: the packed layout has no gaps.
pub proof fn lemma_packed_pos_onto(p: nat, dim: nat)
    requires
        p < tri(dim),
    ensures
        exists|i: nat, j: nat| j <= i < dim && packed_pos(i, j) == p,
    decreases dim,
{
    let d = (dim - 1) as nat;
    if p < tri(d) {
        lemma_packed_pos_onto(p, d);
        let (i, j) = choose|i: nat, j: nat| j <= i < d && packed_pos(i, j) == p;
        assert(j <= i < dim && packed_pos(i, j) == p);
    } else {
        let j = (p - tri(d)) as nat;
        assert(j <= d < dim && packed_pos(d, j) == p);
    }
}

/// The rows of a lower triangle: row `k` holds `k + 1` entries.
pub open spec fn is_lower_triangle<T>(rows: Seq<Seq<T>>) -> bool {
    forall|k: int| 0 <= k < rows.len() ==> #[trigger] rows[k].len() == k + 1
}

/// The rows laid one after the other.
pub open spec fn flatten<T>(rows: Seq<Seq<T>>) -> Seq<T>
    decreases rows.len(),
{
    if rows.len() == 0 {
        Seq::empty()
    } else {
        flatten(rows.drop_last()) + rows.last()
    }
}

/// Packing the rows of a lower triangle one after the other gives a vector
/// of `tri(n)` entries in which entry `(i, j)` of the symmetric matrix is
/// found at `packed_pos(i, j)`, for either order of `i` and `j`.
pub proof fn lemma_flatten_packed<T>(rows: Seq<Seq<T>>, i: nat, j: nat)
    requires
        is_lower_triangle(rows),
        i < rows.len(),
        j < rows.len(),
    ensures
        flatten(rows).len() == tri(rows.len()),
        flatten(rows)[packed_pos(i, j) as int] == (if i >= j {
            rows[i as int][j as int]
        } else {
            rows[j as int][i as int]
        }),
    decreases rows.len(),
{
    lemma_flatten_len(rows);
    let n = rows.len();
    let init = rows.drop_last();
    assert(is_lower_triangle(init)) by {
        assert forall|k: int| 0 <= k < init.len() implies #[trigger] init[k].len() == k + 1 by {
            assert(init[k] == rows[k]);
        }
    }
    lemma_flatten_len(init);
    let hi = if i >= j { i } else { j };
    let lo = if i >= j { j } else { i };
    if hi + 1 < n {
        lemma_flatten_packed(init, i, j);
        lemma_packed_pos_in_range(i, j, (n - 1) as nat);
    } else {
        assert(hi == n - 1);
        assert(packed_pos(i, j) == tri((n - 1) as nat) + lo);
        assert(rows.last() == rows[hi as int]);
    }
}

/// A lower triangle of `n` rows packs into `tri(n)` entries.
pub proof fn lemma_flatten_len<T>(rows: Seq<Seq<T>>)
    requires
        is_lower_triangle(rows),
    ensures
        flatten(rows).len() == tri(rows.len()),
    decreases rows.len(),
{
    if rows.len() > 0 {
        let init = rows.drop_last();
        assert(is_lower_triangle(init)) by {
            assert forall|k: int| 0 <= k < init.len() implies #[trigger] init[k].len() == k + 1 by {
                assert(init[k] == rows[k]);
            }
        }
        lemma_flatten_len(init);
        assert(rows.last().len() == rows.len());
    }
}

/// Where row `n` of a packed lower triangle starts, `(n * n + n) / 2`;
/// computed so that no intermediate value exceeds it.
pub fn row_start(n: usize) -> (r: usize)
    requires
        tri(n as nat) <= usize::MAX,
    ensures
        r == tri(n as nat),
{
    proof {
        lemma_tri_closed_form(n as nat);
    }
    if n % 2 == 0 {
        let h = n / 2;
        assert(h * (n + 1) == tri(n as nat)) by (nonlinear_arith)
            requires
                2 * tri(n as nat) == n * (n + 1),
                n == 2 * h,
        ;
        h * (n + 1)
    } else {
        let h = n / 2 + 1;
        assert(n * h == tri(n as nat)) by (nonlinear_arith)
            requires
                2 * tri(n as nat) == n * (n + 1),
                n + 1 == 2 * h,
        ;
        n * h
    }
}

/// Position of entry `(i, j)` of a `dim x dim` symmetric matrix in its
/// packed lower triangle.
pub fn packed_index(i: usize, j: usize, dim: usize) -> (r: usize)
    requires
        i < dim,
        j < dim,
        tri(dim as nat) <= usize::MAX,
    ensures
        r == packed_pos(i as nat, j as nat),
        r < tri(dim as nat),
{
    proof {
        lemma_packed_pos_in_range(i as nat, j as nat, dim as nat);
        lemma_tri_monotone(i as nat, dim as nat);
        lemma_tri_monotone(j as nat, dim as nat);
    }
    if i >= j {
        row_start(i) + j
    } else {
        row_start(j) + i
    }
}

/// Position of the diagonal entry `(n, n)`, `(n * n + 3 * n) / 2`.
pub fn diag_index(n: usize, dim: usize) -> (r: usize)
    requires
        n < dim,
        tri(dim as nat) <= usize::MAX,
    ensures
        r == packed_pos(n as nat, n as nat),
        r == tri(n as nat) + n,
        r < tri(dim as nat),
{
    packed_index(n, n, dim)
}

/// Row `i` of the symmetric matrix packed in `mat`, taken against `vec` over
/// its first `n` columns: `vec[m] * S[i][m]` added for `m` rising, from zero.
pub open spec fn row_dot<S: Scalar>(mat: Seq<S>, vec: Seq<S>, i: nat, n: nat) -> S
    decreases n,
{
    if n == 0 {
        S::spec_zero()
    } else {
        let m = (n - 1) as nat;
        row_dot(mat, vec, i, m).spec_plus(vec[m as int].spec_times(mat[packed_pos(i, m) as int]))
    }
}

/// The first `i` rows of the quadratic form: `vec[k] * row_dot(k)` added for
/// `k` rising, from zero.
pub open spec fn quad_sum<S: Scalar>(mat: Seq<S>, vec: Seq<S>, i: nat) -> S
    decreases i,
{
    if i == 0 {
        S::spec_zero()
    } else {
        let k = (i - 1) as nat;
        quad_sum(mat, vec, k).spec_plus(
            vec[k as int].spec_times(row_dot(mat, vec, k, vec.len())),
        )
    }
}

/// The quadratic form `x^T S x` of the symmetric matrix packed in `mat` at
/// `x = vec`, in the order in which `quad_form` computes it.
pub open spec fn quad_form_spec<S: Scalar>(mat: Seq<S>, vec: Seq<S>) -> S {
    quad_sum(mat, vec, vec.len())
}

/// A row product reads only the packed triangle of a `vec.len()`-square
/// matrix.
proof fn lemma_row_dot_reads_triangle<S: Scalar>(
    mat1: Seq<S>,
    mat2: Seq<S>,
    vec: Seq<S>,
    i: nat,
    n: nat,
)
    requires
        i < vec.len(),
        n <= vec.len(),
        forall|p: int| 0 <= p < tri(vec.len()) ==> mat1[p] == mat2[p],
    ensures
        row_dot(mat1, vec, i, n) == row_dot(mat2, vec, i, n),
    decreases n,
{
    if n > 0 {
        lemma_row_dot_reads_triangle(mat1, mat2, vec, i, (n - 1) as nat);
        lemma_packed_pos_in_range(i, (n - 1) as nat, vec.len());
    }
}

/// The quadratic form reads only the packed triangle of the matrix: entries
/// past position `tri(vec.len())` never change it.
pub proof fn lemma_quad_form_reads_triangle<S: Scalar>(mat1: Seq<S>, mat2: Seq<S>, vec: Seq<S>)
    requires
        forall|p: int| 0 <= p < tri(vec.len()) ==> mat1[p] == mat2[p],
    ensures
        quad_form_spec(mat1, vec) == quad_form_spec(mat2, vec),
{
    lemma_quad_sum_reads_triangle(mat1, mat2, vec, vec.len());
}

proof fn lemma_quad_sum_reads_triangle<S: Scalar>(mat1: Seq<S>, mat2: Seq<S>, vec: Seq<S>, i: nat)
    requires
        i <= vec.len(),
        forall|p: int| 0 <= p < tri(vec.len()) ==> mat1[p] == mat2[p],
    ensures
        quad_sum(mat1, vec, i) == quad_sum(mat2, vec, i),
    decreases i,
{
    if i > 0 {
        lemma_quad_sum_reads_triangle(mat1, mat2, vec, (i - 1) as nat);
        lemma_row_dot_reads_triangle(mat1, mat2, vec, (i - 1) as nat, vec.len());
    }
}

/// `x_i * S_ij * x_j` summed over `j < n`, the entries read from the packed
/// triangle and the numbers through `val`.
pub open spec fn pair_terms<S: Scalar>(
    val: spec_fn(S) -> int,
    mat: Seq<S>,
    x: Seq<S>,
    i: nat,
    n: nat,
) -> int
    decreases n,
{
    if n == 0 {
        0
    } else {
        let j = (n - 1) as nat;
        pair_terms(val, mat, x, i, j) + val(x[i as int]) * val(mat[packed_pos(i, j) as int]) * val(
            x[j as int],
        )
    }
}

/// `sum_{i < k} sum_{j < x.len()} x_i * S_ij * x_j`.
pub open spec fn double_sum<S: Scalar>(val: spec_fn(S) -> int, mat: Seq<S>, x: Seq<S>, k: nat) -> int
    decreases k,
{
    if k == 0 {
        0
    } else {
        double_sum(val, mat, x, (k - 1) as nat) + pair_terms(val, mat, x, (k - 1) as nat, x.len())
    }
}

proof fn lemma_row_dot_exact<S: Scalar>(
    val: spec_fn(S) -> int,
    mat: Seq<S>,
    x: Seq<S>,
    i: nat,
    n: nat,
)
    requires
        exact_ring(val),
    ensures
        val(x[i as int]) * val(row_dot(mat, x, i, n)) == pair_terms(val, mat, x, i, n),
    decreases n,
{
    if n == 0 {
        assert(val(x[i as int]) * 0 == 0) by (nonlinear_arith);
    } else {
        let j = (n - 1) as nat;
        lemma_row_dot_exact(val, mat, x, i, j);
        let xi = val(x[i as int]);
        let r = val(row_dot(mat, x, i, j));
        let xj = val(x[j as int]);
        let e = val(mat[packed_pos(i, j) as int]);
        assert(val(row_dot(mat, x, i, n)) == r + xj * e);
        assert(xi * (r + xj * e) == xi * r + xi * e * xj) by (nonlinear_arith);
    }
}

proof fn lemma_quad_sum_exact<S: Scalar>(val: spec_fn(S) -> int, mat: Seq<S>, x: Seq<S>, k: nat)
    requires
        exact_ring(val),
    ensures
        val(quad_sum(mat, x, k)) == double_sum(val, mat, x, k),
    decreases k,
{
    if k > 0 {
        let i = (k - 1) as nat;
        lemma_quad_sum_exact(val, mat, x, i);
        lemma_row_dot_exact(val, mat, x, i, x.len());
    }
}

/// In exact arithmetic the quadratic form is `x^T S x`: the sum of
/// `x_i * S_ij * x_j` over all `i, j < x.len()`, entry `(i, j)` read from
/// the packed triangle at `packed_pos(i, j)` for either order of `i` and
/// `j`, so that every entry of the matrix counts.
pub proof fn lemma_quad_form_is_double_sum<S: Scalar>(
    val: spec_fn(S) -> int,
    mat: Seq<S>,
    x: Seq<S>,
)
    requires
        exact_ring(val),
    ensures
        val(quad_form_spec(mat, x)) == double_sum(val, mat, x, x.len()),
{
    lemma_quad_sum_exact(val, mat, x, x.len());
}

/// The quadratic form `x^T S x` of a symmetric matrix `S`, given by its
/// packed lower triangle `mat`, at the vector `x = vec`.
///
/// Row `i` of `S` is taken against `x` first (`sum_n x[n] * S[i][n]`, `n`
/// rising), then weighted by `x[i]` and added, `i` rising.
pub fn quad_form<S: Scalar>(mat: &Vec<S>, vec: &Vec<S>) -> (r: S)
    requires
        tri(vec.len() as nat) <= mat.len(),
    ensures
        r == quad_form_spec(mat@, vec@),
        forall|val: spec_fn(S) -> int|
            #[trigger] exact_ring(val) ==> val(r) == double_sum(val, mat@, vec@, vec.len() as nat),
{
    proof {
        assert forall|val: spec_fn(S) -> int| #[trigger] exact_ring(val) implies val(
            quad_form_spec(mat@, vec@),
        ) == double_sum(val, mat@, vec@, vec.len() as nat) by {
            lemma_quad_form_is_double_sum(val, mat@, vec@);
        }
    }
    let dim = vec.len();
    let mut sum = S::zero();
    let mut i: usize = 0;
    while i < dim
        invariant
            dim == vec.len(),
            tri(dim as nat) <= mat.len(),
            i <= dim,
            sum == quad_sum(mat@, vec@, i as nat),
        decreases dim - i,
    {
        let mut row_vec_sum = S::zero();
        let mut n: usize = 0;
        while n < dim
            invariant
                dim == vec.len(),
                tri(dim as nat) <= mat.len(),
                i < dim,
                n <= dim,
                row_vec_sum == row_dot(mat@, vec@, i as nat, n as nat),
            decreases dim - n,
        {
            let idx = packed_index(i, n, dim);
            row_vec_sum = row_vec_sum.plus(vec[n].times(mat[idx]));
            n = n + 1;
        }
        sum = sum.plus(vec[i].times(row_vec_sum));
        i = i + 1;
    }
    sum
}

} // verus!
