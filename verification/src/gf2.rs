//! The GF(2) linear-algebra model.
//!
//! Vectors over GF(2) are sequences of bits, matrices are sequences of rows,
//! and addition is XOR. The executable matrix types state their contracts in
//! terms of this model; the lemmas here carry the algebra those contracts
//! need: linearity of the dot product, compatibility of multiplication with
//! application, and the behaviour of identity and unit vectors.

use vstd::prelude::*;

verus! {

/// A matrix with the given number of rows, each of the given width.
pub open spec fn wf_mat(m: Seq<Seq<bool>>, rows: nat, cols: nat) -> bool {
    m.len() == rows && forall|i: int| 0 <= i < m.len() ==> (#[trigger] m[i]).len() == cols
}

/// The all-zero vector.
pub open spec fn zero_vec(n: nat) -> Seq<bool> {
    Seq::new(n, |i: int| false)
}

/// Pointwise XOR of two vectors of equal length.
pub open spec fn vec_xor(a: Seq<bool>, b: Seq<bool>) -> Seq<bool> {
    Seq::new(a.len(), |i: int| a[i] != b[i])
}

/// The vector with a single one at position k.
pub open spec fn unit_vec(n: nat, k: int) -> Seq<bool> {
    Seq::new(n, |i: int| i == k)
}

/// Dot product over GF(2): the XOR over all positions of the conjunction.
pub open spec fn dot(a: Seq<bool>, b: Seq<bool>) -> bool
    decreases a.len(),
{
    if a.len() == 0 {
        false
    } else {
        dot(a.drop_last(), b.drop_last()) != (a.last() && b.last())
    }
}

/// Matrix-vector product: bit i of the result is the dot product of row i
/// with the vector.
pub open spec fn mat_apply(m: Seq<Seq<bool>>, v: Seq<bool>) -> Seq<bool> {
    Seq::new(m.len(), |i: int| dot(m[i], v))
}

/// XOR of the rows of m selected by the bits of r; rows have width n.
pub open spec fn row_combine(r: Seq<bool>, m: Seq<Seq<bool>>, n: nat) -> Seq<bool>
    decreases r.len(),
{
    if r.len() == 0 {
        zero_vec(n)
    } else {
        let rest = row_combine(r.drop_last(), m.drop_last(), n);
        if r.last() {
            vec_xor(rest, m.last())
        } else {
            rest
        }
    }
}

/// Matrix product: row i of the result combines the rows of b by the bits of
/// row i of a.
pub open spec fn mat_mul(a: Seq<Seq<bool>>, b: Seq<Seq<bool>>, n: nat) -> Seq<Seq<bool>> {
    Seq::new(a.len(), |i: int| row_combine(a[i], b, n))
}

/// The all-zero matrix.
pub open spec fn zero_mat(rows: nat, cols: nat) -> Seq<Seq<bool>> {
    Seq::new(rows, |i: int| zero_vec(cols))
}

/// The identity matrix.
pub open spec fn ident_mat(n: nat) -> Seq<Seq<bool>> {
    Seq::new(n, |i: int| unit_vec(n, i))
}

/// A matrix is invertible when a two-sided inverse exists.
pub open spec fn invertible(m: Seq<Seq<bool>>, n: nat) -> bool {
    exists|inv: Seq<Seq<bool>>|
        wf_mat(inv, n, n) && mat_mul(inv, m, n) == ident_mat(n) && mat_mul(m, inv, n)
            == ident_mat(n)
}

/// The dot product with an all-zero left operand is zero.
pub proof fn lemma_dot_zero_left(v: Seq<bool>)
    ensures
        !dot(zero_vec(v.len()), v),
    decreases v.len(),
{
    if v.len() > 0 {
        assert(zero_vec(v.len()).drop_last() =~= zero_vec((v.len() - 1) as nat));
        assert(v.drop_last().len() == v.len() - 1);
        lemma_dot_zero_left(v.drop_last());
        assert(!zero_vec(v.len()).last());
    }
}

/// The dot product with a unit vector on the left selects one coordinate.
pub proof fn lemma_dot_unit_left(n: nat, k: int, b: Seq<bool>)
    requires
        b.len() == n,
        0 <= k < n,
    ensures
        dot(unit_vec(n, k), b) == b[k],
    decreases n,
{
    if k == n - 1 {
        assert(unit_vec(n, k).drop_last() =~= zero_vec((n - 1) as nat));
        assert(b.drop_last().len() == n - 1);
        lemma_dot_zero_left(b.drop_last());
        assert(unit_vec(n, k).last());
    } else {
        assert(unit_vec(n, k).drop_last() =~= unit_vec((n - 1) as nat, k));
        lemma_dot_unit_left((n - 1) as nat, k, b.drop_last());
        assert(!unit_vec(n, k).last());
        assert(b.drop_last()[k] == b[k]);
    }
}

/// The dot product with a unit vector on the right selects one coordinate.
pub proof fn lemma_dot_unit_right(n: nat, k: int, a: Seq<bool>)
    requires
        a.len() == n,
        0 <= k < n,
    ensures
        dot(a, unit_vec(n, k)) == a[k],
    decreases n,
{
    if k == n - 1 {
        lemma_dot_zero_right(a.drop_last(), unit_vec(n, k).drop_last());
        assert(unit_vec(n, k).drop_last() =~= zero_vec((n - 1) as nat));
        assert(unit_vec(n, k).last());
    } else {
        assert(unit_vec(n, k).drop_last() =~= unit_vec((n - 1) as nat, k));
        lemma_dot_unit_right((n - 1) as nat, k, a.drop_last());
        assert(!unit_vec(n, k).last());
        assert(a.drop_last()[k] == a[k]);
    }
}

/// The dot product with an all-zero right operand is zero.
pub proof fn lemma_dot_zero_right(a: Seq<bool>, z: Seq<bool>)
    requires
        z.len() == a.len(),
        z =~= zero_vec(a.len()),
    ensures
        !dot(a, z),
    decreases a.len(),
{
    if a.len() > 0 {
        assert(z.drop_last() =~= zero_vec((a.len() - 1) as nat));
        lemma_dot_zero_right(a.drop_last(), z.drop_last());
        assert(!z.last());
    }
}

/// The dot product is linear in its right operand.
pub proof fn lemma_dot_linear_right(r: Seq<bool>, a: Seq<bool>, b: Seq<bool>)
    requires
        a.len() == r.len(),
        b.len() == r.len(),
    ensures
        dot(r, vec_xor(a, b)) == (dot(r, a) != dot(r, b)),
    decreases r.len(),
{
    if r.len() > 0 {
        assert(vec_xor(a, b).drop_last() =~= vec_xor(a.drop_last(), b.drop_last()));
        lemma_dot_linear_right(r.drop_last(), a.drop_last(), b.drop_last());
        assert(vec_xor(a, b).last() == (a.last() != b.last()));
    }
}

/// The dot product is linear in its left operand.
pub proof fn lemma_dot_linear_left(a: Seq<bool>, b: Seq<bool>, v: Seq<bool>)
    requires
        a.len() == v.len(),
        b.len() == v.len(),
    ensures
        dot(vec_xor(a, b), v) == (dot(a, v) != dot(b, v)),
    decreases v.len(),
{
    if v.len() > 0 {
        assert(vec_xor(a, b).drop_last() =~= vec_xor(a.drop_last(), b.drop_last()));
        lemma_dot_linear_left(a.drop_last(), b.drop_last(), v.drop_last());
        assert(vec_xor(a, b).last() == (a.last() != b.last()));
    }
}

/// Dotting a row combination with a vector equals dotting the selector with
/// the matrix-vector product.
pub proof fn lemma_dot_row_combine(r: Seq<bool>, m: Seq<Seq<bool>>, n: nat, v: Seq<bool>)
    requires
        r.len() == m.len(),
        forall|i: int| 0 <= i < m.len() ==> (#[trigger] m[i]).len() == n,
        v.len() == n,
    ensures
        dot(row_combine(r, m, n), v) == dot(r, mat_apply(m, v)),
    decreases r.len(),
{
    if r.len() == 0 {
        lemma_dot_zero_left(v);
        assert(row_combine(r, m, n) =~= zero_vec(v.len()));
        assert(mat_apply(m, v).len() == 0);
    } else {
        let rp = r.drop_last();
        let mp = m.drop_last();
        let rest = row_combine(rp, mp, n);
        lemma_dot_row_combine(rp, mp, n, v);
        assert(rest.len() == n) by {
            lemma_row_combine_len(rp, mp, n);
        }
        if r.last() {
            lemma_dot_linear_left(rest, m.last(), v);
        }
        assert(mat_apply(m, v).drop_last() =~= mat_apply(mp, v));
        assert(mat_apply(m, v).last() == dot(m.last(), v));
    }
}

/// A row combination has the width of the rows.
pub proof fn lemma_row_combine_len(r: Seq<bool>, m: Seq<Seq<bool>>, n: nat)
    ensures
        row_combine(r, m, n).len() == n,
    decreases r.len(),
{
    if r.len() > 0 {
        lemma_row_combine_len(r.drop_last(), m.drop_last(), n);
    }
}

/// Applying a product applies the factors one after the other.
pub proof fn lemma_mat_apply_mul(a: Seq<Seq<bool>>, b: Seq<Seq<bool>>, n: nat, v: Seq<bool>)
    requires
        forall|i: int| 0 <= i < a.len() ==> (#[trigger] a[i]).len() == b.len(),
        forall|i: int| 0 <= i < b.len() ==> (#[trigger] b[i]).len() == n,
        v.len() == n,
    ensures
        mat_apply(mat_mul(a, b, n), v) == mat_apply(a, mat_apply(b, v)),
{
    assert forall|i: int| 0 <= i < a.len() implies #[trigger] mat_apply(mat_mul(a, b, n), v)[i]
        == mat_apply(a, mat_apply(b, v))[i] by {
        lemma_dot_row_combine(a[i], b, n, v);
    }
    assert(mat_apply(mat_mul(a, b, n), v) =~= mat_apply(a, mat_apply(b, v)));
}

/// The identity matrix maps every vector to itself.
pub proof fn lemma_ident_apply(n: nat, v: Seq<bool>)
    requires
        v.len() == n,
    ensures
        mat_apply(ident_mat(n), v) == v,
{
    assert forall|i: int| 0 <= i < n implies #[trigger] mat_apply(ident_mat(n), v)[i] == v[i] by {
        lemma_dot_unit_left(n, i, v);
    }
    assert(mat_apply(ident_mat(n), v) =~= v);
}

/// Applying a matrix to a unit vector yields the matching column.
pub proof fn lemma_apply_unit(m: Seq<Seq<bool>>, p: nat, n: nat, k: int)
    requires
        wf_mat(m, p, n),
        0 <= k < n,
    ensures
        mat_apply(m, unit_vec(n, k)) == Seq::new(p, |i: int| m[i][k]),
{
    assert forall|i: int| 0 <= i < p implies #[trigger] mat_apply(m, unit_vec(n, k))[i] == m[i][k]
        by {
        lemma_dot_unit_right(n, k, m[i]);
    }
    assert(mat_apply(m, unit_vec(n, k)) =~= Seq::new(p, |i: int| m[i][k]));
}

/// Matrix application is linear over XOR.
pub proof fn lemma_apply_linear(m: Seq<Seq<bool>>, a: Seq<bool>, b: Seq<bool>)
    requires
        forall|i: int| 0 <= i < m.len() ==> (#[trigger] m[i]).len() == a.len(),
        a.len() == b.len(),
    ensures
        mat_apply(m, vec_xor(a, b)) == vec_xor(mat_apply(m, a), mat_apply(m, b)),
{
    assert forall|i: int| 0 <= i < m.len() implies #[trigger] mat_apply(m, vec_xor(a, b))[i]
        == vec_xor(mat_apply(m, a), mat_apply(m, b))[i] by {
        lemma_dot_linear_right(m[i], a, b);
    }
    assert(mat_apply(m, vec_xor(a, b)) =~= vec_xor(mat_apply(m, a), mat_apply(m, b)));
}

/// A left inverse undoes the matrix on every vector.
pub proof fn lemma_inverse_cancels(m: Seq<Seq<bool>>, inv: Seq<Seq<bool>>, n: nat, v: Seq<bool>)
    requires
        wf_mat(m, n, n),
        wf_mat(inv, n, n),
        mat_mul(inv, m, n) == ident_mat(n),
        v.len() == n,
    ensures
        mat_apply(inv, mat_apply(m, v)) == v,
{
    lemma_mat_apply_mul(inv, m, n, v);
    lemma_ident_apply(n, v);
}

/// A dot product splits at any position into the dot products of the two
/// parts.
pub proof fn lemma_dot_split(a: Seq<bool>, b: Seq<bool>, k: int)
    requires
        a.len() == b.len(),
        0 <= k <= a.len(),
    ensures
        dot(a, b) == (dot(a.take(k), b.take(k)) != dot(a.skip(k), b.skip(k))),
    decreases a.len(),
{
    if a.len() == k {
        assert(a.take(k) =~= a);
        assert(b.take(k) =~= b);
        assert(a.skip(k).len() == 0);
    } else {
        let ap = a.drop_last();
        let bp = b.drop_last();
        lemma_dot_split(ap, bp, k);
        assert(ap.take(k) =~= a.take(k));
        assert(bp.take(k) =~= b.take(k));
        assert(a.skip(k).drop_last() =~= ap.skip(k));
        assert(b.skip(k).drop_last() =~= bp.skip(k));
        assert(a.skip(k).last() == a.last());
        assert(b.skip(k).last() == b.last());
        assert(a.skip(k).len() > 0);
    }
}

/// One step of a dot product computed over growing prefixes.
pub proof fn lemma_dot_take_step(a: Seq<bool>, b: Seq<bool>, j: int)
    requires
        0 <= j < a.len(),
        a.len() == b.len(),
    ensures
        dot(a.take(j + 1), b.take(j + 1)) == (dot(a.take(j), b.take(j)) != (a[j] && b[j])),
{
    assert(a.take(j + 1).drop_last() =~= a.take(j));
    assert(b.take(j + 1).drop_last() =~= b.take(j));
    assert(a.take(j + 1).last() == a[j]);
    assert(b.take(j + 1).last() == b[j]);
}

/// One step of a row combination computed over growing prefixes.
pub proof fn lemma_row_combine_take_step(r: Seq<bool>, m: Seq<Seq<bool>>, n: nat, j: int)
    requires
        0 <= j < r.len(),
        r.len() == m.len(),
    ensures
        row_combine(r.take(j + 1), m.take(j + 1), n) == if r[j] {
            vec_xor(row_combine(r.take(j), m.take(j), n), m[j])
        } else {
            row_combine(r.take(j), m.take(j), n)
        },
{
    assert(r.take(j + 1).drop_last() =~= r.take(j));
    assert(m.take(j + 1).drop_last() =~= m.take(j));
    assert(r.take(j + 1).last() == r[j]);
    assert(m.take(j + 1).last() == m[j]);
}

/// XOR of a sequence of vectors of width n.
pub open spec fn xor_fold(s: Seq<Seq<bool>>, n: nat) -> Seq<bool>
    decreases s.len(),
{
    if s.len() == 0 {
        zero_vec(n)
    } else {
        vec_xor(xor_fold(s.drop_last(), n), s.last())
    }
}

/// An XOR of vectors of width n has width n.
pub proof fn lemma_xor_fold_len(s: Seq<Seq<bool>>, n: nat)
    ensures
        xor_fold(s, n).len() == n,
    decreases s.len(),
{
    if s.len() > 0 {
        lemma_xor_fold_len(s.drop_last(), n);
    }
}

/// An XOR of vectors can be taken from the front as well as from the back.
pub proof fn lemma_xor_fold_front(s: Seq<Seq<bool>>, n: nat)
    requires
        s.len() > 0,
        forall|i: int| 0 <= i < s.len() ==> (#[trigger] s[i]).len() == n,
    ensures
        xor_fold(s, n) == vec_xor(xor_fold(s.skip(1), n), s[0]),
    decreases s.len(),
{
    if s.len() == 1 {
        assert(s.drop_last() =~= s.skip(1));
    } else {
        let sp = s.drop_last();
        lemma_xor_fold_front(sp, n);
        assert(s.skip(1).drop_last() =~= sp.skip(1));
        assert(s.skip(1).last() == s.last());
        lemma_xor_fold_len(sp.skip(1), n);
        assert(vec_xor(vec_xor(xor_fold(sp.skip(1), n), s[0]), s.last()) =~= vec_xor(
            vec_xor(xor_fold(sp.skip(1), n), s.last()),
            s[0],
        ));
    }
}

/// XOR-folding pointwise XORs equals XORing the two folds.
pub proof fn lemma_xor_fold_zip(z: Seq<Seq<bool>>, f: Seq<Seq<bool>>, g: Seq<Seq<bool>>, n: nat)
    requires
        z.len() == f.len(),
        f.len() == g.len(),
        forall|i: int| 0 <= i < z.len() ==> #[trigger] z[i] == vec_xor(f[i], g[i]),
        forall|i: int| 0 <= i < f.len() ==> (#[trigger] f[i]).len() == n,
        forall|i: int| 0 <= i < g.len() ==> (#[trigger] g[i]).len() == n,
    ensures
        xor_fold(z, n) == vec_xor(xor_fold(f, n), xor_fold(g, n)),
    decreases z.len(),
{
    if z.len() == 0 {
        assert(xor_fold(z, n) =~= vec_xor(xor_fold(f, n), xor_fold(g, n)));
    } else {
        lemma_xor_fold_zip(z.drop_last(), f.drop_last(), g.drop_last(), n);
        assert(z.last() == vec_xor(f.last(), g.last()));
        lemma_xor_fold_len(f.drop_last(), n);
        lemma_xor_fold_len(g.drop_last(), n);
        assert(vec_xor(
            vec_xor(xor_fold(f.drop_last(), n), xor_fold(g.drop_last(), n)),
            vec_xor(f.last(), g.last()),
        ) =~= vec_xor(
            vec_xor(xor_fold(f.drop_last(), n), f.last()),
            vec_xor(xor_fold(g.drop_last(), n), g.last()),
        ));
    }
}

/// XOR-folding a cyclic rotation gives the same result as folding the
/// sequence itself.
pub proof fn lemma_xor_fold_rotate(rot: Seq<Seq<bool>>, s: Seq<Seq<bool>>, n: nat)
    requires
        s.len() > 0,
        rot.len() == s.len(),
        forall|i: int| 0 <= i < rot.len() ==> #[trigger] rot[i] == s[(i + 1) % (s.len() as int)],
        forall|i: int| 0 <= i < s.len() ==> (#[trigger] s[i]).len() == n,
    ensures
        xor_fold(rot, n) == xor_fold(s, n),
{
    assert forall|i: int| 0 <= i < s.len() - 1 implies #[trigger] rot.drop_last()[i] == s.skip(
        1,
    )[i] by {
        assert((i + 1) % (s.len() as int) == i + 1) by (nonlinear_arith)
            requires
                0 <= i,
                i + 1 < s.len(),
        ;
    }
    assert(rot.drop_last() =~= s.skip(1));
    assert((s.len() as int) % (s.len() as int) == 0) by (nonlinear_arith)
        requires
            s.len() > 0,
    ;
    assert(rot.last() == s[0]);
    lemma_xor_fold_front(s, n);
}

/// A full cycle of neighbour XORs cancels: XORing every vector with its
/// cyclic successor and folding the results gives zero.
pub proof fn lemma_cyclic_xor_cancels(z: Seq<Seq<bool>>, s: Seq<Seq<bool>>, n: nat)
    requires
        s.len() > 0,
        z.len() == s.len(),
        forall|i: int| 0 <= i < z.len() ==> #[trigger] z[i] == vec_xor(
            s[i],
            s[(i + 1) % (s.len() as int)],
        ),
        forall|i: int| 0 <= i < s.len() ==> (#[trigger] s[i]).len() == n,
    ensures
        xor_fold(z, n) == zero_vec(n),
{
    let rot = Seq::new(s.len(), |i: int| s[(i + 1) % (s.len() as int)]);
    assert forall|i: int| 0 <= i < rot.len() implies (#[trigger] rot[i]).len() == n by {
        assert(0 <= (i + 1) % (s.len() as int) < s.len());
    }
    lemma_xor_fold_zip(z, s, rot, n);
    lemma_xor_fold_rotate(rot, s, n);
    lemma_xor_fold_len(s, n);
    assert(vec_xor(xor_fold(s, n), xor_fold(s, n)) =~= zero_vec(n));
}

/// An all-false selector combines to the zero vector.
pub proof fn lemma_row_combine_zero(r: Seq<bool>, m: Seq<Seq<bool>>, n: nat)
    requires
        forall|i: int| 0 <= i < r.len() ==> !r[i],
    ensures
        row_combine(r, m, n) == zero_vec(n),
    decreases r.len(),
{
    if r.len() > 0 {
        lemma_row_combine_zero(r.drop_last(), m.drop_last(), n);
        assert(!r.last());
    }
}

/// A row combination is linear in its selector.
pub proof fn lemma_row_combine_linear(a: Seq<bool>, b: Seq<bool>, m: Seq<Seq<bool>>, n: nat)
    requires
        a.len() == b.len(),
        b.len() == m.len(),
        forall|i: int| 0 <= i < m.len() ==> (#[trigger] m[i]).len() == n,
    ensures
        row_combine(vec_xor(a, b), m, n) == vec_xor(
            row_combine(a, m, n),
            row_combine(b, m, n),
        ),
    decreases a.len(),
{
    if a.len() == 0 {
        assert(row_combine(vec_xor(a, b), m, n) =~= vec_xor(
            row_combine(a, m, n),
            row_combine(b, m, n),
        ));
    } else {
        lemma_row_combine_linear(a.drop_last(), b.drop_last(), m.drop_last(), n);
        assert(vec_xor(a, b).drop_last() =~= vec_xor(a.drop_last(), b.drop_last()));
        assert(vec_xor(a, b).last() == (a.last() != b.last()));
        lemma_row_combine_len(a.drop_last(), m.drop_last(), n);
        lemma_row_combine_len(b.drop_last(), m.drop_last(), n);
        let ra = row_combine(a.drop_last(), m.drop_last(), n);
        let rb = row_combine(b.drop_last(), m.drop_last(), n);
        if a.last() && b.last() {
            assert(vec_xor(vec_xor(ra, m.last()), vec_xor(rb, m.last())) =~= vec_xor(ra, rb));
        } else if a.last() {
            assert(vec_xor(vec_xor(ra, m.last()), rb) =~= vec_xor(vec_xor(ra, rb), m.last()));
        } else if b.last() {
            assert(vec_xor(ra, vec_xor(rb, m.last())) =~= vec_xor(vec_xor(ra, rb), m.last()));
        }
    }
}

/// A unit selector picks out one row.
pub proof fn lemma_row_combine_unit(k: nat, i: int, m: Seq<Seq<bool>>, n: nat)
    requires
        m.len() == k,
        0 <= i < k,
        forall|t: int| 0 <= t < m.len() ==> (#[trigger] m[t]).len() == n,
    ensures
        row_combine(unit_vec(k, i), m, n) == m[i],
    decreases k,
{
    if i == k - 1 {
        assert(unit_vec(k, i).drop_last() =~= zero_vec((k - 1) as nat));
        lemma_row_combine_zero(unit_vec(k, i).drop_last(), m.drop_last(), n);
        assert(unit_vec(k, i).last());
        assert(vec_xor(zero_vec(n), m.last()) =~= m.last());
    } else {
        assert(unit_vec(k, i).drop_last() =~= unit_vec((k - 1) as nat, i));
        lemma_row_combine_unit((k - 1) as nat, i, m.drop_last(), n);
        assert(!unit_vec(k, i).last());
        assert(m.drop_last()[i] == m[i]);
    }
}

/// Combining over the identity gives the selector back.
pub proof fn lemma_row_combine_ident(r: Seq<bool>, k: nat, n: nat)
    requires
        r.len() == k,
        k <= n,
    ensures
        row_combine(r, ident_mat(n).take(k as int), n) == Seq::new(
            n,
            |j: int| 0 <= j < k && r[j],
        ),
    decreases k,
{
    if k == 0 {
        assert(row_combine(r, ident_mat(n).take(0), n) =~= Seq::new(
            n,
            |j: int| 0 <= j < k && r[j],
        ));
    } else {
        lemma_row_combine_ident(r.drop_last(), (k - 1) as nat, n);
        assert(ident_mat(n).take(k as int).drop_last() =~= ident_mat(n).take(k as int - 1));
        assert(ident_mat(n).take(k as int).last() == unit_vec(n, k as int - 1));
        let prev = Seq::new(n, |j: int| 0 <= j < k - 1 && r.drop_last()[j]);
        if r.last() {
            assert(vec_xor(prev, unit_vec(n, k as int - 1)) =~= Seq::new(
                n,
                |j: int| 0 <= j < k && r[j],
            ));
        } else {
            assert(prev =~= Seq::new(n, |j: int| 0 <= j < k && r[j]));
        }
    }
}

/// The identity is a left and a right unit of matrix multiplication.
pub proof fn lemma_mat_mul_ident(m: Seq<Seq<bool>>, n: nat)
    requires
        wf_mat(m, n, n),
    ensures
        mat_mul(ident_mat(n), m, n) == m,
        mat_mul(m, ident_mat(n), n) == m,
{
    assert forall|i: int| 0 <= i < n implies #[trigger] mat_mul(ident_mat(n), m, n)[i]
        == m[i] by {
        lemma_row_combine_unit(n, i, m, n);
    }
    assert(mat_mul(ident_mat(n), m, n) =~= m);
    assert forall|i: int| 0 <= i < n implies #[trigger] mat_mul(m, ident_mat(n), n)[i]
        == m[i] by {
        lemma_row_combine_ident(m[i], n, n);
        assert(ident_mat(n).take(n as int) =~= ident_mat(n));
        assert(Seq::new(n, |j: int| 0 <= j < n && m[i][j]) =~= m[i]);
    }
    assert(mat_mul(m, ident_mat(n), n) =~= m);
}

/// Matrix multiplication is associative.
pub proof fn lemma_mat_mul_assoc(a: Seq<Seq<bool>>, b: Seq<Seq<bool>>, c: Seq<Seq<bool>>, n: nat)
    requires
        wf_mat(a, n, n),
        wf_mat(b, n, n),
        wf_mat(c, n, n),
    ensures
        mat_mul(mat_mul(a, b, n), c, n) == mat_mul(a, mat_mul(b, c, n), n),
{
    let ab = mat_mul(a, b, n);
    let bc = mat_mul(b, c, n);
    assert(wf_mat(ab, n, n)) by {
        assert forall|i: int| 0 <= i < n implies (#[trigger] ab[i]).len() == n by {
            lemma_row_combine_len(a[i], b, n);
        }
    }
    assert(wf_mat(bc, n, n)) by {
        assert forall|i: int| 0 <= i < n implies (#[trigger] bc[i]).len() == n by {
            lemma_row_combine_len(b[i], c, n);
        }
    }
    let l = mat_mul(ab, c, n);
    let r = mat_mul(a, bc, n);
    assert(wf_mat(l, n, n)) by {
        assert forall|i: int| 0 <= i < n implies (#[trigger] l[i]).len() == n by {
            lemma_row_combine_len(ab[i], c, n);
        }
    }
    assert(wf_mat(r, n, n)) by {
        assert forall|i: int| 0 <= i < n implies (#[trigger] r[i]).len() == n by {
            lemma_row_combine_len(a[i], bc, n);
        }
    }
    assert forall|i: int| 0 <= i < n implies #[trigger] l[i] == r[i] by {
        assert forall|k: int| 0 <= k < n implies #[trigger] l[i][k] == r[i][k] by {
            lemma_apply_unit(l, n, n, k);
            lemma_apply_unit(r, n, n, k);
            let u = unit_vec(n, k);
            lemma_mat_apply_mul(ab, c, n, u);
            lemma_mat_apply_mul(a, bc, n, u);
            lemma_mat_apply_mul(a, b, n, mat_apply(c, u));
            lemma_mat_apply_mul(b, c, n, u);
            assert(mat_apply(l, u)[i] == l[i][k]);
            assert(mat_apply(r, u)[i] == r[i][k]);
        }
        assert(l[i] =~= r[i]);
    }
    assert(l =~= r);
}

/// A matrix with a one-sided inverse that fails on the other side is not
/// invertible: any two-sided inverse would have to coincide with the
/// one-sided one.
pub proof fn lemma_one_sided_not_invertible(m: Seq<Seq<bool>>, rv: Seq<Seq<bool>>, n: nat)
    requires
        wf_mat(m, n, n),
        wf_mat(rv, n, n),
        mat_mul(rv, m, n) == ident_mat(n),
        mat_mul(m, rv, n) != ident_mat(n),
    ensures
        !invertible(m, n),
{
    if invertible(m, n) {
        let w = choose|w: Seq<Seq<bool>>|
            wf_mat(w, n, n) && mat_mul(w, m, n) == ident_mat(n) && mat_mul(m, w, n) == ident_mat(
                n,
            );
        lemma_mat_mul_assoc(rv, m, w, n);
        lemma_mat_mul_ident(w, n);
        lemma_mat_mul_ident(rv, n);
        assert(mat_mul(rv, mat_mul(m, w, n), n) == rv);
        assert(mat_mul(mat_mul(rv, m, n), w, n) == w);
        assert(rv == w);
    }
}

/// Applying any matrix to the zero vector gives the zero vector.
pub proof fn lemma_apply_zero_vec(m: Seq<Seq<bool>>, n: nat)
    requires
        wf_mat(m, n, n),
    ensures
        mat_apply(m, zero_vec(n)) == zero_vec(n),
{
    assert forall|i: int| 0 <= i < n implies !mat_apply(m, zero_vec(n))[i] by {
        lemma_dot_zero_right(m[i], zero_vec(n));
    }
    assert(mat_apply(m, zero_vec(n)) =~= zero_vec(n));
}

/// Swapping two rows preserves which vectors a matrix sends to zero.
pub proof fn lemma_swap_kernel(
    a: Seq<Seq<bool>>,
    b: Seq<Seq<bool>>,
    r1: int,
    r2: int,
    n: nat,
    v: Seq<bool>,
)
    requires
        a.len() == n,
        b.len() == n,
        0 <= r1 < n,
        0 <= r2 < n,
        b == a.update(r1, a[r2]).update(r2, a[r1]),
        v.len() == n,
    ensures
        (mat_apply(a, v) == zero_vec(n)) <==> (mat_apply(b, v) == zero_vec(n)),
{
    if mat_apply(a, v) == zero_vec(n) {
        assert forall|i: int| 0 <= i < n implies !mat_apply(b, v)[i] by {
            if i == r2 {
                assert(mat_apply(a, v)[r1] == zero_vec(n)[r1]);
            } else if i == r1 {
                assert(mat_apply(a, v)[r2] == zero_vec(n)[r2]);
            } else {
                assert(mat_apply(a, v)[i] == zero_vec(n)[i]);
            }
        }
        assert(mat_apply(b, v) =~= zero_vec(n));
    }
    if mat_apply(b, v) == zero_vec(n) {
        assert forall|i: int| 0 <= i < n implies !mat_apply(a, v)[i] by {
            if i == r2 {
                assert(mat_apply(b, v)[r1] == zero_vec(n)[r1]);
            } else if i == r1 {
                assert(mat_apply(b, v)[r2] == zero_vec(n)[r2]);
            } else {
                assert(mat_apply(b, v)[i] == zero_vec(n)[i]);
            }
        }
        assert(mat_apply(a, v) =~= zero_vec(n));
    }
}

/// XORing one row into another preserves which vectors a matrix sends to
/// zero.
pub proof fn lemma_rowxor_kernel(
    a: Seq<Seq<bool>>,
    b: Seq<Seq<bool>>,
    r: int,
    c: int,
    n: nat,
    v: Seq<bool>,
)
    requires
        wf_mat(a, n, n),
        b.len() == n,
        0 <= r < n,
        0 <= c < n,
        r != c,
        b == a.update(r, vec_xor(a[r], a[c])),
        v.len() == n,
    ensures
        (mat_apply(a, v) == zero_vec(n)) <==> (mat_apply(b, v) == zero_vec(n)),
{
    lemma_dot_linear_left(a[r], a[c], v);
    if mat_apply(a, v) == zero_vec(n) {
        assert forall|i: int| 0 <= i < n implies !mat_apply(b, v)[i] by {
            assert(mat_apply(a, v)[i] == zero_vec(n)[i]);
            assert(mat_apply(a, v)[r] == zero_vec(n)[r]);
            assert(mat_apply(a, v)[c] == zero_vec(n)[c]);
        }
        assert(mat_apply(b, v) =~= zero_vec(n));
    }
    if mat_apply(b, v) == zero_vec(n) {
        assert(vec_xor(vec_xor(a[r], a[c]), a[c]) =~= a[r]);
        lemma_dot_linear_left(vec_xor(a[r], a[c]), a[c], v);
        assert forall|i: int| 0 <= i < n implies !mat_apply(a, v)[i] by {
            assert(mat_apply(b, v)[i] == zero_vec(n)[i]);
            assert(mat_apply(b, v)[r] == zero_vec(n)[r]);
            assert(mat_apply(b, v)[c] == zero_vec(n)[c]);
        }
        assert(mat_apply(a, v) =~= zero_vec(n));
    }
}

/// A matrix that sends a vector with a set bit to zero is not invertible.
pub proof fn lemma_kernel_not_invertible(m: Seq<Seq<bool>>, v: Seq<bool>, n: nat, k: int)
    requires
        wf_mat(m, n, n),
        v.len() == n,
        0 <= k < n,
        v[k],
        mat_apply(m, v) == zero_vec(n),
    ensures
        !invertible(m, n),
{
    if invertible(m, n) {
        let q = choose|q: Seq<Seq<bool>>|
            wf_mat(q, n, n) && mat_mul(q, m, n) == ident_mat(n) && mat_mul(m, q, n) == ident_mat(
                n,
            );
        lemma_inverse_cancels(m, q, n, v);
        lemma_apply_zero_vec(q, n);
        assert(v == zero_vec(n));
        assert(!v[k]);
    }
}

/// The kernel vector a stuck elimination exhibits: one at the failed
/// column, the column's upper entries before it, zero after it.
pub open spec fn stuck_witness(m: Seq<Seq<bool>>, n: nat, col: int) -> Seq<bool> {
    Seq::new(
        n,
        |j: int|
            if j == col {
                true
            } else if j < col {
                m[j][col]
            } else {
                false
            },
    )
}

/// When the first `col` columns have been reduced to unit columns and no
/// row from `col` down carries a pivot, the stuck witness is in the
/// kernel.
pub proof fn lemma_stuck_elimination_kernel(m: Seq<Seq<bool>>, n: nat, col: int)
    requires
        wf_mat(m, n, n),
        0 <= col < n,
        forall|c: int, r: int| 0 <= c < col && 0 <= r < n ==> m[r][c] == (r == c),
        forall|r: int| col <= r < n ==> !(#[trigger] m[r][col]),
    ensures
        mat_apply(m, stuck_witness(m, n, col)) == zero_vec(n),
{
    let v = stuck_witness(m, n, col);
    assert forall|r: int| 0 <= r < n implies !mat_apply(m, v)[r] by {
        let row = m[r];
        lemma_dot_split(row, v, col + 1);
        assert forall|j: int| 0 <= j < v.skip(col + 1).len() implies !(#[trigger] v.skip(
            col + 1,
        )[j]) by {
            assert(v.skip(col + 1)[j] == v[col + 1 + j]);
        }
        assert(v.skip(col + 1) =~= zero_vec((n - col - 1) as nat));
        lemma_dot_zero_right(row.skip(col + 1), v.skip(col + 1));
        if r < col {
            let hot = if row[col] {
                vec_xor(unit_vec((col + 1) as nat, r), unit_vec((col + 1) as nat, col))
            } else {
                unit_vec((col + 1) as nat, r)
            };
            assert(row.take(col + 1) =~= hot);
            if row[col] {
                lemma_dot_linear_left(
                    unit_vec((col + 1) as nat, r),
                    unit_vec((col + 1) as nat, col),
                    v.take(col + 1),
                );
            }
            lemma_dot_unit_left((col + 1) as nat, r, v.take(col + 1));
            lemma_dot_unit_left((col + 1) as nat, col, v.take(col + 1));
            assert(v.take(col + 1)[r] == v[r]);
            assert(v.take(col + 1)[col] == v[col]);
        } else {
            assert forall|j: int| 0 <= j < col + 1 implies !(#[trigger] row.take(col + 1)[j]) by {
                if j < col {
                    assert(m[r][j] == (r == j));
                } else {
                    assert(!m[r][col]);
                }
            }
            assert(row.take(col + 1) =~= zero_vec((col + 1) as nat));
            lemma_dot_zero_left(v.take(col + 1));
        }
    }
    assert(mat_apply(m, v) =~= zero_vec(n));
}

/// Bit j of a byte, lowest bit first.
pub open spec fn u8_bit(x: u8, j: int) -> bool {
    (x >> (j as u8)) & 1 == 1
}

/// The 8 bits of a byte as a vector, lowest bit first.
pub open spec fn u8_bits(x: u8) -> Seq<bool> {
    Seq::new(8, |j: int| u8_bit(x, j))
}

/// The bits of a byte string, byte 0 first and the low bit of each byte first.
pub open spec fn byte_bits(s: Seq<u8>) -> Seq<bool> {
    Seq::new(8 * s.len(), |k: int| u8_bit(s[k / 8], k % 8))
}

/// Bit j of a 64-bit word, lowest bit first.
pub open spec fn u64_bit(x: u64, j: int) -> bool {
    (x >> (j as u64)) & 1 == 1
}

/// XOR on bytes has zero as its unit.
pub proof fn lemma_u8_xor_zero(x: u8)
    by (bit_vector)
    ensures
        x ^ 0 == x,
        0 ^ x == x,
{
}

/// XOR on bytes cancels a repeated operand.
pub proof fn lemma_u8_xor_cancel(a: u8, b: u8)
    by (bit_vector)
    ensures
        a ^ (b ^ a) == b,
{
}

/// XOR on bytes is associative.
pub proof fn lemma_u8_xor_assoc(a: u8, b: u8, c: u8)
    by (bit_vector)
    ensures
        a ^ (b ^ c) == (a ^ b) ^ c,
{
}

/// The zero word has no bits set.
pub proof fn lemma_u64_zero_bit(j: int)
    requires
        0 <= j < 64,
    ensures
        !u64_bit(0, j),
{
    let ju = j as u64;
    assert((0u64 >> ju) & 1 == 0) by (bit_vector);
}

/// XOR of words is XOR of their bits.
pub proof fn lemma_u64_xor_bit(x: u64, y: u64, j: int)
    requires
        0 <= j < 64,
    ensures
        u64_bit(x ^ y, j) == (u64_bit(x, j) != u64_bit(y, j)),
{
    let ju = j as u64;
    assert((((x ^ y) >> ju) & 1 == 1) == (((x >> ju) & 1 == 1) != ((y >> ju) & 1 == 1)))
        by (bit_vector)
        requires
            ju < 64,
    ;
}

/// Setting one bit of a word by OR changes exactly that bit.
pub proof fn lemma_u64_or_bit(w: u64, o: u64, t: u64)
    by (bit_vector)
    requires
        o < 64,
        t < 64,
    ensures
        (((w | (1u64 << o)) >> t) & 1 == 1) == (t == o || ((w >> t) & 1 == 1)),
{
}

/// Clearing one bit of a word by AND-NOT changes exactly that bit.
pub proof fn lemma_u64_clear_bit(w: u64, o: u64, t: u64)
    by (bit_vector)
    requires
        o < 64,
        t < 64,
    ensures
        (((w & !(1u64 << o)) >> t) & 1 == 1) == (t != o && ((w >> t) & 1 == 1)),
{
}

/// Extracting byte k of a word keeps its bits: bit j of the k-th
/// little-endian byte is bit 8k+j of the word.
pub proof fn lemma_u64_byte_extract(w: u64, k: u64, j: u64)
    by (bit_vector)
    requires
        k < 8,
        j < 8,
    ensures
        (((((w >> (8 * k)) & 0xff) as u8) >> (j as u8)) & 1 == 1) == ((w >> (8 * k + j)) & 1
            == 1),
{
}

/// Two words with the same bits extract the same little-endian byte.
proof fn lemma_u64_byte_eq(x: u64, y: u64, k: u64)
    requires
        k < 8,
        forall|j: int| 0 <= j < 64 ==> u64_bit(x, j) == u64_bit(y, j),
    ensures
        ((x >> (8 * k)) & 0xff) as u8 == ((y >> (8 * k)) & 0xff) as u8,
{
    let xk = ((x >> (8 * k)) & 0xff) as u8;
    let yk = ((y >> (8 * k)) & 0xff) as u8;
    assert forall|j: int| 0 <= j < 8 implies u8_bit(xk, j) == u8_bit(yk, j) by {
        let ju = j as u64;
        lemma_u64_byte_extract(x, k, ju);
        lemma_u64_byte_extract(y, k, ju);
        let m = 8 * (k as int) + j;
        assert(0 <= m < 64);
        assert(u64_bit(x, m) == u64_bit(y, m));
        assert((m as u64) == 8 * k + ju);
    }
    lemma_u8_eq_from_bits(xk, yk);
}

/// Two words with the same bits are the same word.
pub proof fn lemma_u64_eq_from_bits(x: u64, y: u64)
    requires
        forall|j: int| 0 <= j < 64 ==> u64_bit(x, j) == u64_bit(y, j),
    ensures
        x == y,
{
    lemma_u64_byte_eq(x, y, 0);
    lemma_u64_byte_eq(x, y, 1);
    lemma_u64_byte_eq(x, y, 2);
    lemma_u64_byte_eq(x, y, 3);
    lemma_u64_byte_eq(x, y, 4);
    lemma_u64_byte_eq(x, y, 5);
    lemma_u64_byte_eq(x, y, 6);
    lemma_u64_byte_eq(x, y, 7);
    let x0 = ((x >> 0u64) & 0xff) as u8;
    let x1 = ((x >> 8u64) & 0xff) as u8;
    let x2 = ((x >> 16u64) & 0xff) as u8;
    let x3 = ((x >> 24u64) & 0xff) as u8;
    let x4 = ((x >> 32u64) & 0xff) as u8;
    let x5 = ((x >> 40u64) & 0xff) as u8;
    let x6 = ((x >> 48u64) & 0xff) as u8;
    let x7 = ((x >> 56u64) & 0xff) as u8;
    let y0 = ((y >> 0u64) & 0xff) as u8;
    let y1 = ((y >> 8u64) & 0xff) as u8;
    let y2 = ((y >> 16u64) & 0xff) as u8;
    let y3 = ((y >> 24u64) & 0xff) as u8;
    let y4 = ((y >> 32u64) & 0xff) as u8;
    let y5 = ((y >> 40u64) & 0xff) as u8;
    let y6 = ((y >> 48u64) & 0xff) as u8;
    let y7 = ((y >> 56u64) & 0xff) as u8;
    assert(x == y) by (bit_vector)
        requires
            ((x >> 0u64) & 0xff) as u8 == ((y >> 0u64) & 0xff) as u8,
            ((x >> 8u64) & 0xff) as u8 == ((y >> 8u64) & 0xff) as u8,
            ((x >> 16u64) & 0xff) as u8 == ((y >> 16u64) & 0xff) as u8,
            ((x >> 24u64) & 0xff) as u8 == ((y >> 24u64) & 0xff) as u8,
            ((x >> 32u64) & 0xff) as u8 == ((y >> 32u64) & 0xff) as u8,
            ((x >> 40u64) & 0xff) as u8 == ((y >> 40u64) & 0xff) as u8,
            ((x >> 48u64) & 0xff) as u8 == ((y >> 48u64) & 0xff) as u8,
            ((x >> 56u64) & 0xff) as u8 == ((y >> 56u64) & 0xff) as u8,
    ;
}

/// Packing eight bytes little-endian into a word keeps their bits: bit
/// 8k+j of the word is bit j of byte k.
pub proof fn lemma_u64_from_bytes_bit(
    b0: u8,
    b1: u8,
    b2: u8,
    b3: u8,
    b4: u8,
    b5: u8,
    b6: u8,
    b7: u8,
    k: u64,
    j: u64,
)
    by (bit_vector)
    requires
        k < 8,
        j < 8,
    ensures
        k == 0 ==> ((((b0 as u64) | ((b1 as u64) << 8) | ((b2 as u64) << 16) | ((b3 as u64) << 24)
            | ((b4 as u64) << 32) | ((b5 as u64) << 40) | ((b6 as u64) << 48) | ((b7 as u64)
            << 56)) >> (8 * k + j)) & 1 == 1) == ((b0 >> (j as u8)) & 1 == 1),
        k == 1 ==> ((((b0 as u64) | ((b1 as u64) << 8) | ((b2 as u64) << 16) | ((b3 as u64) << 24)
            | ((b4 as u64) << 32) | ((b5 as u64) << 40) | ((b6 as u64) << 48) | ((b7 as u64)
            << 56)) >> (8 * k + j)) & 1 == 1) == ((b1 >> (j as u8)) & 1 == 1),
        k == 2 ==> ((((b0 as u64) | ((b1 as u64) << 8) | ((b2 as u64) << 16) | ((b3 as u64) << 24)
            | ((b4 as u64) << 32) | ((b5 as u64) << 40) | ((b6 as u64) << 48) | ((b7 as u64)
            << 56)) >> (8 * k + j)) & 1 == 1) == ((b2 >> (j as u8)) & 1 == 1),
        k == 3 ==> ((((b0 as u64) | ((b1 as u64) << 8) | ((b2 as u64) << 16) | ((b3 as u64) << 24)
            | ((b4 as u64) << 32) | ((b5 as u64) << 40) | ((b6 as u64) << 48) | ((b7 as u64)
            << 56)) >> (8 * k + j)) & 1 == 1) == ((b3 >> (j as u8)) & 1 == 1),
        k == 4 ==> ((((b0 as u64) | ((b1 as u64) << 8) | ((b2 as u64) << 16) | ((b3 as u64) << 24)
            | ((b4 as u64) << 32) | ((b5 as u64) << 40) | ((b6 as u64) << 48) | ((b7 as u64)
            << 56)) >> (8 * k + j)) & 1 == 1) == ((b4 >> (j as u8)) & 1 == 1),
        k == 5 ==> ((((b0 as u64) | ((b1 as u64) << 8) | ((b2 as u64) << 16) | ((b3 as u64) << 24)
            | ((b4 as u64) << 32) | ((b5 as u64) << 40) | ((b6 as u64) << 48) | ((b7 as u64)
            << 56)) >> (8 * k + j)) & 1 == 1) == ((b5 >> (j as u8)) & 1 == 1),
        k == 6 ==> ((((b0 as u64) | ((b1 as u64) << 8) | ((b2 as u64) << 16) | ((b3 as u64) << 24)
            | ((b4 as u64) << 32) | ((b5 as u64) << 40) | ((b6 as u64) << 48) | ((b7 as u64)
            << 56)) >> (8 * k + j)) & 1 == 1) == ((b6 >> (j as u8)) & 1 == 1),
        k == 7 ==> ((((b0 as u64) | ((b1 as u64) << 8) | ((b2 as u64) << 16) | ((b3 as u64) << 24)
            | ((b4 as u64) << 32) | ((b5 as u64) << 40) | ((b6 as u64) << 48) | ((b7 as u64)
            << 56)) >> (8 * k + j)) & 1 == 1) == ((b7 >> (j as u8)) & 1 == 1),
{
}

/// Pointwise XOR of two byte strings of equal length.
pub open spec fn bytes_xor(a: Seq<u8>, b: Seq<u8>) -> Seq<u8> {
    Seq::new(a.len(), |i: int| a[i] ^ b[i])
}

/// The byte with the given 8 bits, lowest bit first.
pub open spec fn u8_from_bits(s: Seq<bool>) -> u8 {
    (((if s[0] {
        1int
    } else {
        0int
    }) + (if s[1] {
        2int
    } else {
        0int
    }) + (if s[2] {
        4int
    } else {
        0int
    }) + (if s[3] {
        8int
    } else {
        0int
    }) + (if s[4] {
        16int
    } else {
        0int
    }) + (if s[5] {
        32int
    } else {
        0int
    }) + (if s[6] {
        64int
    } else {
        0int
    }) + (if s[7] {
        128int
    } else {
        0int
    })) as u8)
}

/// Rebuilding a byte from its bits gives the byte back.
pub proof fn lemma_u8_from_bits_id(x: u8)
    ensures
        u8_from_bits(u8_bits(x)) == x,
{
    assert(x == ((if (x >> 0u8) & 1 == 1 {
        1u8
    } else {
        0u8
    }) + (if (x >> 1u8) & 1 == 1 {
        2u8
    } else {
        0u8
    }) + (if (x >> 2u8) & 1 == 1 {
        4u8
    } else {
        0u8
    }) + (if (x >> 3u8) & 1 == 1 {
        8u8
    } else {
        0u8
    }) + (if (x >> 4u8) & 1 == 1 {
        16u8
    } else {
        0u8
    }) + (if (x >> 5u8) & 1 == 1 {
        32u8
    } else {
        0u8
    }) + (if (x >> 6u8) & 1 == 1 {
        64u8
    } else {
        0u8
    }) + (if (x >> 7u8) & 1 == 1 {
        128u8
    } else {
        0u8
    })) as u8) by (bit_vector);
}

/// The byte string with the given bits, lowest bit of each byte first.
pub open spec fn bytes_from_bits(s: Seq<bool>) -> Seq<u8> {
    Seq::new(s.len() / 8, |i: int| u8_from_bits(s.subrange(8 * i, 8 * i + 8)))
}

/// Rebuilding a byte string from its bits gives the string back.
pub proof fn lemma_bytes_from_bits_id(x: Seq<u8>)
    ensures
        bytes_from_bits(byte_bits(x)) == x,
{
    assert forall|i: int| 0 <= i < x.len() implies #[trigger] bytes_from_bits(byte_bits(x))[i]
        == x[i] by {
        assert forall|j: int| 0 <= j < 8 implies #[trigger] byte_bits(x).subrange(
            8 * i,
            8 * i + 8,
        )[j] == u8_bits(x[i])[j] by {
            let k = 8 * i + j;
            assert(k / 8 == i && k % 8 == j) by (nonlinear_arith)
                requires
                    0 <= j < 8,
                    0 <= i,
                    k == 8 * i + j,
            ;
            assert(byte_bits(x)[k] == u8_bit(x[k / 8], k % 8));
        }
        assert(byte_bits(x).subrange(8 * i, 8 * i + 8) =~= u8_bits(x[i]));
        lemma_u8_from_bits_id(x[i]);
    }
    assert(bytes_from_bits(byte_bits(x)) =~= x);
}

/// Rebuilding bits from the byte they form gives the bits back.
pub proof fn lemma_u8_bits_from_bits(s: Seq<bool>)
    requires
        s.len() == 8,
    ensures
        u8_bits(u8_from_bits(s)) == s,
{
    let b0: u8 = if s[0] {
        1
    } else {
        0
    };
    let b1: u8 = if s[1] {
        1
    } else {
        0
    };
    let b2: u8 = if s[2] {
        1
    } else {
        0
    };
    let b3: u8 = if s[3] {
        1
    } else {
        0
    };
    let b4: u8 = if s[4] {
        1
    } else {
        0
    };
    let b5: u8 = if s[5] {
        1
    } else {
        0
    };
    let b6: u8 = if s[6] {
        1
    } else {
        0
    };
    let b7: u8 = if s[7] {
        1
    } else {
        0
    };
    let v = u8_from_bits(s);
    assert(v == b0 + 2 * b1 + 4 * b2 + 8 * b3 + 16 * b4 + 32 * b5 + 64 * b6 + 128 * b7);
    assert forall|j: int| 0 <= j < 8 implies #[trigger] u8_bits(v)[j] == s[j] by {
        assert((((v >> 0u8) & 1 == 1) == (b0 == 1)) && (((v >> 1u8) & 1 == 1) == (b1 == 1)) && (((v
            >> 2u8) & 1 == 1) == (b2 == 1)) && (((v >> 3u8) & 1 == 1) == (b3 == 1)) && (((v
            >> 4u8) & 1 == 1) == (b4 == 1)) && (((v >> 5u8) & 1 == 1) == (b5 == 1)) && (((v
            >> 6u8) & 1 == 1) == (b6 == 1)) && (((v >> 7u8) & 1 == 1) == (b7 == 1)))
            by (bit_vector)
            requires
                v == b0 + 2 * b1 + 4 * b2 + 8 * b3 + 16 * b4 + 32 * b5 + 64 * b6 + 128 * b7,
                b0 <= 1,
                b1 <= 1,
                b2 <= 1,
                b3 <= 1,
                b4 <= 1,
                b5 <= 1,
                b6 <= 1,
                b7 <= 1,
        ;
    }
    assert(u8_bits(v) =~= s);
}

/// Rebuilding bits from the bytes they form gives the bits back.
pub proof fn lemma_byte_bits_from_bits(bits: Seq<bool>)
    requires
        bits.len() == 256,
    ensures
        byte_bits(bytes_from_bits(bits)) == bits,
{
    let bb = bytes_from_bits(bits);
    assert(bb.len() == 32);
    assert forall|k: int| 0 <= k < 256 implies #[trigger] byte_bits(bb)[k] == bits[k] by {
        assert(0 <= k / 8 < 32 && 0 <= k % 8 < 8 && k == 8 * (k / 8) + k % 8) by (nonlinear_arith)
            requires
                0 <= k < 256,
        ;
        let sub = bits.subrange(8 * (k / 8), 8 * (k / 8) + 8);
        lemma_u8_bits_from_bits(sub);
        assert(byte_bits(bb)[k] == u8_bit(bb[k / 8], k % 8));
        assert(bb[k / 8] == u8_from_bits(sub));
        assert(u8_bits(u8_from_bits(sub))[k % 8] == sub[k % 8]);
        assert(sub[k % 8] == bits[k]);
    }
    assert(byte_bits(bb) =~= bits);
}

/// Two bytes with the same bits are the same byte.
pub proof fn lemma_u8_eq_from_bits(x: u8, y: u8)
    requires
        forall|j: int| 0 <= j < 8 ==> u8_bit(x, j) == u8_bit(y, j),
    ensures
        x == y,
{
    assert(u8_bit(x, 0) == u8_bit(y, 0));
    assert(u8_bit(x, 1) == u8_bit(y, 1));
    assert(u8_bit(x, 2) == u8_bit(y, 2));
    assert(u8_bit(x, 3) == u8_bit(y, 3));
    assert(u8_bit(x, 4) == u8_bit(y, 4));
    assert(u8_bit(x, 5) == u8_bit(y, 5));
    assert(u8_bit(x, 6) == u8_bit(y, 6));
    assert(u8_bit(x, 7) == u8_bit(y, 7));
    assert(x == y) by (bit_vector)
        requires
            ((x >> 0u8) & 1 == 1) == ((y >> 0u8) & 1 == 1),
            ((x >> 1u8) & 1 == 1) == ((y >> 1u8) & 1 == 1),
            ((x >> 2u8) & 1 == 1) == ((y >> 2u8) & 1 == 1),
            ((x >> 3u8) & 1 == 1) == ((y >> 3u8) & 1 == 1),
            ((x >> 4u8) & 1 == 1) == ((y >> 4u8) & 1 == 1),
            ((x >> 5u8) & 1 == 1) == ((y >> 5u8) & 1 == 1),
            ((x >> 6u8) & 1 == 1) == ((y >> 6u8) & 1 == 1),
            ((x >> 7u8) & 1 == 1) == ((y >> 7u8) & 1 == 1),
    ;
}

/// XOR of bytes is XOR of their bits.
pub proof fn lemma_u8_xor_bit(x: u8, y: u8, j: int)
    requires
        0 <= j < 8,
    ensures
        u8_bit(x ^ y, j) == (u8_bit(x, j) != u8_bit(y, j)),
{
    let ju = j as u8;
    assert((((x ^ y) >> ju) & 1 == 1) == (((x >> ju) & 1 == 1) != ((y >> ju) & 1 == 1)))
        by (bit_vector)
        requires
            ju < 8,
    ;
}

/// The zero byte has no bits set.
pub proof fn lemma_u8_bits_zero()
    ensures
        u8_bits(0) == zero_vec(8),
{
    assert forall|j: int| 0 <= j < 8 implies !u8_bit(0, j) by {
        let ju = j as u8;
        assert((0u8 >> ju) & 1 == 0) by (bit_vector);
    }
    assert(u8_bits(0) =~= zero_vec(8));
}

/// The bits of a byte XOR are the XOR of the bits.
pub proof fn lemma_u8_bits_xor(x: u8, y: u8)
    ensures
        u8_bits(x ^ y) == vec_xor(u8_bits(x), u8_bits(y)),
{
    assert forall|j: int| 0 <= j < 8 implies #[trigger] u8_bits(x ^ y)[j] == (u8_bit(x, j)
        != u8_bit(y, j)) by {
        lemma_u8_xor_bit(x, y, j);
    }
    assert(u8_bits(x ^ y) =~= vec_xor(u8_bits(x), u8_bits(y)));
}

/// The bits of a one-hot byte form a unit vector.
pub proof fn lemma_u8_bits_one_hot(i: u8)
    requires
        i < 8,
    ensures
        u8_bits(1u8 << i) == unit_vec(8, i as int),
{
    assert forall|t: int| 0 <= t < 8 implies #[trigger] u8_bits(1u8 << i)[t] == (t == i as int)
        by {
        let tu = t as u8;
        assert((((1u8 << i) >> tu) & 1 == 1) == (tu == i)) by (bit_vector)
            requires
                i < 8,
                tu < 8,
        ;
    }
    assert(u8_bits(1u8 << i) =~= unit_vec(8, i as int));
}

/// Setting one bit of a byte by OR changes exactly that bit.
pub proof fn lemma_u8_set_bit(x: u8, i: u8, t: u8)
    by (bit_vector)
    requires
        i < 8,
        t < 8,
    ensures
        (((x | (1u8 << i)) >> t) & 1 == 1) == (t == i || ((x >> t) & 1 == 1)),
{
}

/// The bit view of a pointwise byte XOR is the XOR of the bit views.
pub proof fn lemma_byte_bits_xor(a: Seq<u8>, b: Seq<u8>)
    requires
        a.len() == b.len(),
    ensures
        byte_bits(bytes_xor(a, b)) == vec_xor(byte_bits(a), byte_bits(b)),
{
    assert forall|k: int| 0 <= k < 8 * a.len() implies #[trigger] byte_bits(bytes_xor(a, b))[k]
        == vec_xor(byte_bits(a), byte_bits(b))[k] by {
        lemma_u8_xor_bit(a[k / 8], b[k / 8], k % 8);
    }
    assert(byte_bits(bytes_xor(a, b)) =~= vec_xor(byte_bits(a), byte_bits(b)));
}

} // verus!
