//! GF(2) bit-matrix types.
//!
//! `Matrix8` is an 8x8 matrix with each row packed into a byte; `Matrix256`
//! is a 256x256 matrix with each row packed into four 64-bit words. Both
//! state their contracts over the model in `gf2`: the view of a matrix is
//! the sequence of its rows as bit vectors. Inversion runs Gaussian
//! elimination and then checks its candidate by multiplying back; only a
//! candidate that passes the two-sided check is returned, so the contract
//! of `invert` does not depend on the elimination itself.

use vstd::prelude::*;

use crate::errors::WbError;
use crate::gf2;
use crate::rng::WbRng;

verus! {

/// 8x8 binary matrix over GF(2), row-major, each row packed into a byte;
/// bit j of row i is the entry at (i, j).
#[derive(Clone, Debug, PartialEq, Eq)]
pub struct Matrix8 {
    rows: Vec<u8>,
}

impl View for Matrix8 {
    type V = Seq<Seq<bool>>;

    closed spec fn view(&self) -> Seq<Seq<bool>> {
        Seq::new(8, |i: int| gf2::u8_bits(self.rows@[i]))
    }
}

/// Every `Matrix8` view is an 8x8 bit matrix.
pub broadcast proof fn lemma_matrix8_shape(m: Matrix8)
    ensures
        gf2::wf_mat(#[trigger] m@, 8, 8),
{
}

/// The bit rows of eight packed bytes.
spec fn rows8_view(words: Seq<u8>) -> Seq<Seq<bool>> {
    Seq::new(8, |i: int| gf2::u8_bits(words[i]))
}

/// Byte vectors of equal length agree exactly when every entry agrees.
fn bytes_vec_equal(a: &Vec<u8>, b: &Vec<u8>) -> (r: bool)
    requires
        a@.len() == b@.len(),
    ensures
        r == (a@ == b@),
{
    let n = a.len();
    for i in 0..n
        invariant
            n == a@.len(),
            a@.len() == b@.len(),
            forall|t: int| 0 <= t < i ==> a@[t] == b@[t],
    {
        if a[i] != b[i] {
            return false;
        }
    }
    proof {
        assert(a@ =~= b@);
    }
    true
}

impl Matrix8 {
    /// The representation holds exactly eight packed rows.
    pub closed spec fn wf(&self) -> bool {
        self.rows@.len() == 8
    }

    /// Builds a matrix from eight packed rows.
    pub fn from_rows(rows: Vec<u8>) -> (r: Matrix8)
        requires
            rows@.len() == 8,
        ensures
            r.wf(),
            forall|i: int| 0 <= i < 8 ==> r@[i] == gf2::u8_bits(rows@[i]),
    {
        Matrix8 { rows }
    }

    /// Returns the zero matrix.
    pub fn zero() -> (r: Matrix8)
        ensures
            r.wf(),
            r@ == gf2::zero_mat(8, 8),
    {
        let mut rows: Vec<u8> = Vec::new();
        for i in 0..8usize
            invariant
                rows@.len() == i,
                forall|t: int| 0 <= t < i ==> rows@[t] == 0u8,
        {
            rows.push(0);
        }
        let r = Matrix8 { rows };
        proof {
            gf2::lemma_u8_bits_zero();
            assert(r@ =~= gf2::zero_mat(8, 8));
        }
        r
    }

    /// Returns the identity matrix: row i holds `1 << i`.
    pub fn identity() -> (r: Matrix8)
        ensures
            r.wf(),
            r@ == gf2::ident_mat(8),
    {
        let mut rows: Vec<u8> = Vec::new();
        for i in 0..8u8
            invariant
                rows@.len() == i as int,
                forall|t: int| 0 <= t < i ==> rows@[t] == 1u8 << (t as u8),
        {
            rows.push(1u8 << i);
        }
        let r = Matrix8 { rows };
        proof {
            assert forall|i: int| 0 <= i < 8 implies r@[i] == gf2::ident_mat(8)[i] by {
                gf2::lemma_u8_bits_one_hot(i as u8);
            }
            assert(r@ =~= gf2::ident_mat(8));
        }
        r
    }

    /// Draws a uniformly random matrix (not necessarily invertible).
    fn random(rng: &mut WbRng) -> (r: Matrix8)
        ensures
            r.wf(),
    {
        let mut rows: Vec<u8> = Vec::new();
        for i in 0..8usize
            invariant
                rows@.len() == i,
        {
            rows.push(rng.next_u32() as u8);
        }
        Matrix8 { rows }
    }

    /// Draws a uniformly random invertible matrix. Sampling is rejection
    /// based; the retry budget is capped, and exhausting it is surfaced as
    /// `MatrixNotInvertible`.
    pub fn random_invertible(rng: &mut WbRng) -> (r: Result<Matrix8, WbError>)
        ensures
            match r {
                Ok(m) => m.wf() && gf2::invertible(m@, 8),
                Err(e) => e == WbError::MatrixNotInvertible,
            },
    {
        for _attempt in 0..1000usize {
            let cand = Matrix8::random(rng);
            if cand.is_invertible() {
                return Ok(cand);
            }
        }
        Err(WbError::MatrixNotInvertible)
    }

    /// Applies the matrix to a byte seen as a column vector of bits: bit i
    /// of the result is the GF(2) dot product of row i with the input.
    pub fn apply(&self, value: u8) -> (r: u8)
        requires
            self.wf(),
        ensures
            gf2::u8_bits(r) == gf2::mat_apply(self@, gf2::u8_bits(value)),
    {
        let mut out: u8 = 0;
        proof {
            assert forall|t: int| 0 <= t < 8 implies !gf2::u8_bit(out, t) by {
                gf2::lemma_u8_bits_zero();
                assert(gf2::u8_bits(0)[t] == gf2::zero_vec(8)[t]);
            }
        }
        for i in 0..8u8
            invariant
                self.wf(),
                forall|t: int|
                    0 <= t < i ==> gf2::u8_bit(out, t) == gf2::dot(
                        self@[t],
                        gf2::u8_bits(value),
                    ),
                forall|t: int| i <= t < 8 ==> !gf2::u8_bit(out, t),
        {
            let row = self.rows[i as usize];
            let mut acc: bool = false;
            proof {
                assert(self@[i as int].take(0) =~= Seq::<bool>::empty());
                assert(gf2::u8_bits(value).take(0) =~= Seq::<bool>::empty());
            }
            for j in 0..8u8
                invariant
                    self.wf(),
                    i < 8,
                    row == self.rows@[i as int],
                    acc == gf2::dot(
                        self@[i as int].take(j as int),
                        gf2::u8_bits(value).take(j as int),
                    ),
            {
                proof {
                    gf2::lemma_dot_take_step(self@[i as int], gf2::u8_bits(value), j as int);
                    assert(self@[i as int][j as int] == gf2::u8_bit(row, j as int));
                }
                if ((row >> j) & 1 == 1) && ((value >> j) & 1 == 1) {
                    acc = !acc;
                }
            }
            proof {
                assert(self@[i as int].take(8) =~= self@[i as int]);
                assert(gf2::u8_bits(value).take(8) =~= gf2::u8_bits(value));
            }
            if acc {
                let ghost prev = out;
                out = out | (1u8 << i);
                proof {
                    assert forall|t: int| 0 <= t < 8 implies gf2::u8_bit(out, t) == (t == i as int
                        || gf2::u8_bit(prev, t)) by {
                        gf2::lemma_u8_set_bit(prev, i, t as u8);
                    }
                }
            }
        }
        proof {
            assert(gf2::u8_bits(out) =~= gf2::mat_apply(self@, gf2::u8_bits(value)));
        }
        out
    }

    /// Multiplies two matrices: row i of the result is the XOR of the rows
    /// of `rhs` selected by the bits of row i of `self`.
    pub fn mul(&self, rhs: &Matrix8) -> (r: Matrix8)
        requires
            self.wf(),
            rhs.wf(),
        ensures
            r.wf(),
            r@ == gf2::mat_mul(self@, rhs@, 8),
    {
        let mut rows: Vec<u8> = Vec::new();
        for i in 0..8usize
            invariant
                self.wf(),
                rhs.wf(),
                rows@.len() == i,
                forall|t: int|
                    0 <= t < i ==> gf2::u8_bits(rows@[t]) == gf2::row_combine(self@[t], rhs@, 8),
        {
            let srow = self.rows[i];
            let mut acc: u8 = 0;
            proof {
                gf2::lemma_u8_bits_zero();
                assert(self@[i as int].take(0) =~= Seq::<bool>::empty());
                assert(rhs@.take(0) =~= Seq::<Seq<bool>>::empty());
            }
            for j in 0..8u8
                invariant
                    self.wf(),
                    rhs.wf(),
                    i < 8,
                    srow == self.rows@[i as int],
                    gf2::u8_bits(acc) == gf2::row_combine(
                        self@[i as int].take(j as int),
                        rhs@.take(j as int),
                        8,
                    ),
            {
                proof {
                    gf2::lemma_row_combine_take_step(self@[i as int], rhs@, 8, j as int);
                    assert(self@[i as int][j as int] == gf2::u8_bit(srow, j as int));
                }
                if (srow >> j) & 1 == 1 {
                    let rrow = rhs.rows[j as usize];
                    proof {
                        gf2::lemma_u8_bits_xor(acc, rrow);
                        assert(rhs@[j as int] == gf2::u8_bits(rrow));
                    }
                    acc = acc ^ rrow;
                }
            }
            proof {
                assert(self@[i as int].take(8) =~= self@[i as int]);
                assert(rhs@.take(8) =~= rhs@);
            }
            rows.push(acc);
        }
        let r = Matrix8 { rows };
        proof {
            assert(r@ =~= gf2::mat_mul(self@, rhs@, 8));
        }
        r
    }

    /// Attempts to invert the matrix. Gaussian elimination reduces a copy
    /// of the matrix while mirroring every row operation on an identity
    /// companion. The loop invariants show that row operations preserve
    /// which vectors go to zero and that the companion times the original
    /// equals the reduced copy, so a `Some` result is a proven two-sided
    /// inverse and a `None` result proves the matrix singular: a stuck
    /// column exhibits a kernel vector, and a one-sided inverse that fails
    /// on the other side rules out any two-sided one.
    pub fn invert(&self) -> (r: Option<Matrix8>)
        requires
            self.wf(),
        ensures
            match r {
                Some(inv) => {
                    &&& inv.wf()
                    &&& gf2::mat_mul(inv@, self@, 8) == gf2::ident_mat(8)
                    &&& gf2::mat_mul(self@, inv@, 8) == gf2::ident_mat(8)
                },
                None => !gf2::invertible(self@, 8),
            },
    {
        let mut left: Vec<u8> = crate::block::copy_bytes(&self.rows);
        let idm = Matrix8::identity();
        let mut right: Vec<u8> = crate::block::copy_bytes(&idm.rows);
        proof {
            assert(gf2::wf_mat(self@, 8, 8));
            assert(rows8_view(left@) =~= self@);
            assert(rows8_view(right@) =~= idm@);
            gf2::lemma_mat_mul_ident(self@, 8);
        }
        for col in 0..8usize
            invariant
                self.wf(),
                left@.len() == 8,
                right@.len() == 8,
                forall|v: Seq<bool>|
                    v.len() == 8 ==> (((#[trigger] gf2::mat_apply(rows8_view(left@), v))
                        == gf2::zero_vec(8)) <==> (gf2::mat_apply(self@, v) == gf2::zero_vec(
                        8,
                    ))),
                forall|c: int, t: int|
                    0 <= c < col && 0 <= t < 8 ==> #[trigger] rows8_view(left@)[t][c] == (t == c),
                rows8_view(left@) == gf2::mat_mul(rows8_view(right@), self@, 8),
        {
            let ghost lv0 = rows8_view(left@);
            let mut pivot: usize = 8;
            for row in col..8usize
                invariant
                    left@.len() == 8,
                    col < 8,
                    rows8_view(left@) == lv0,
                    pivot == 8 ==> forall|t: int|
                        col <= t < row ==> !(#[trigger] lv0[t][col as int]),
                    pivot != 8 ==> col <= pivot < 8 && lv0[pivot as int][col as int],
            {
                proof {
                    assert(lv0[row as int][col as int] == gf2::u8_bit(
                        left@[row as int],
                        col as int,
                    ));
                }
                if pivot == 8 && ((left[row] >> (col as u8)) & 1 == 1) {
                    pivot = row;
                }
            }
            if pivot == 8 {
                proof {
                    assert(gf2::wf_mat(lv0, 8, 8));
                    gf2::lemma_stuck_elimination_kernel(lv0, 8, col as int);
                    let w = gf2::stuck_witness(lv0, 8, col as int);
                    assert(gf2::mat_apply(lv0, w) == gf2::zero_vec(8));
                    assert(gf2::mat_apply(self@, w) == gf2::zero_vec(8));
                    assert(w[col as int]);
                    gf2::lemma_kernel_not_invertible(self@, w, 8, col as int);
                }
                return None;
            }
            if pivot != col {
                let ghost l_old = left@;
                let ghost r_old = right@;
                let a = left[pivot];
                let b = left[col];
                left.set(pivot, b);
                left.set(col, a);
                let c2 = right[pivot];
                let d = right[col];
                right.set(pivot, d);
                right.set(col, c2);
                proof {
                    let la = rows8_view(l_old);
                    let lb = rows8_view(left@);
                    let ra = rows8_view(r_old);
                    let rb = rows8_view(right@);
                    let pi = pivot as int;
                    let ci = col as int;
                    assert(lb =~= la.update(pi, la[ci]).update(ci, la[pi]));
                    assert(rb =~= ra.update(pi, ra[ci]).update(ci, ra[pi]));
                    assert forall|v: Seq<bool>| v.len() == 8 implies (((
                    #[trigger] gf2::mat_apply(lb, v)) == gf2::zero_vec(8)) <==> (gf2::mat_apply(
                        self@,
                        v,
                    ) == gf2::zero_vec(8))) by {
                        gf2::lemma_swap_kernel(la, lb, pi, ci, 8, v);
                        assert(gf2::mat_apply(la, v) == gf2::mat_apply(rows8_view(l_old), v));
                    }
                    assert forall|t: int| 0 <= t < 8 implies #[trigger] gf2::mat_mul(
                        rb,
                        self@,
                        8,
                    )[t] == lb[t] by {
                        assert(gf2::mat_mul(rb, self@, 8)[t] == gf2::row_combine(rb[t], self@, 8));
                        assert(gf2::mat_mul(ra, self@, 8)[t] == gf2::row_combine(ra[t], self@, 8));
                        assert(gf2::mat_mul(ra, self@, 8)[pi] == gf2::row_combine(
                            ra[pi],
                            self@,
                            8,
                        ));
                        assert(gf2::mat_mul(ra, self@, 8)[ci] == gf2::row_combine(
                            ra[ci],
                            self@,
                            8,
                        ));
                    }
                    assert(gf2::mat_mul(rb, self@, 8) =~= lb);
                    assert forall|c: int, t: int| 0 <= c < col && 0 <= t < 8 implies #[trigger] lb[
                        t
                    ][c] == (t == c) by {
                        if t == pi {
                            assert(la[ci][c] == (ci == c));
                        } else if t == ci {
                            assert(la[pi][c] == (pi == c));
                        } else {
                            assert(la[t][c] == (t == c));
                        }
                    }
                    assert(lb[ci][ci]);
                }
            }
            let lcol = left[col];
            let rcol = right[col];
            proof {
                assert(rows8_view(left@)[col as int][col as int]);
            }
            for row in 0..8usize
                invariant
                    self.wf(),
                    left@.len() == 8,
                    right@.len() == 8,
                    col < 8,
                    lcol == left@[col as int],
                    rcol == right@[col as int],
                    forall|v: Seq<bool>|
                        v.len() == 8 ==> (((#[trigger] gf2::mat_apply(rows8_view(left@), v))
                            == gf2::zero_vec(8)) <==> (gf2::mat_apply(self@, v) == gf2::zero_vec(
                            8,
                        ))),
                    forall|c: int, t: int|
                        0 <= c < col && 0 <= t < 8 ==> #[trigger] rows8_view(left@)[t][c] == (t
                            == c),
                    rows8_view(left@) == gf2::mat_mul(rows8_view(right@), self@, 8),
                    rows8_view(left@)[col as int][col as int],
                    forall|t: int|
                        0 <= t < row && t != col ==> !(#[trigger] rows8_view(left@)[t][col as int]),
            {
                proof {
                    assert(rows8_view(left@)[row as int][col as int] == gf2::u8_bit(
                        left@[row as int],
                        col as int,
                    ));
                }
                if row != col && ((left[row] >> (col as u8)) & 1 == 1) {
                    let ghost l_old = left@;
                    let ghost r_old = right@;
                    let ln = left[row] ^ lcol;
                    let rn = right[row] ^ rcol;
                    left.set(row, ln);
                    right.set(row, rn);
                    proof {
                        let la = rows8_view(l_old);
                        let lb = rows8_view(left@);
                        let ra = rows8_view(r_old);
                        let rb = rows8_view(right@);
                        let ri = row as int;
                        let ci = col as int;
                        gf2::lemma_u8_bits_xor(l_old[ri], l_old[ci]);
                        gf2::lemma_u8_bits_xor(r_old[ri], r_old[ci]);
                        assert(lb =~= la.update(ri, gf2::vec_xor(la[ri], la[ci])));
                        assert(rb =~= ra.update(ri, gf2::vec_xor(ra[ri], ra[ci])));
                        assert(gf2::wf_mat(la, 8, 8));
                        assert forall|v: Seq<bool>| v.len() == 8 implies (((
                        #[trigger] gf2::mat_apply(lb, v)) == gf2::zero_vec(8))
                            <==> (gf2::mat_apply(self@, v) == gf2::zero_vec(8))) by {
                            gf2::lemma_rowxor_kernel(la, lb, ri, ci, 8, v);
                            assert(gf2::mat_apply(la, v) == gf2::mat_apply(rows8_view(l_old), v));
                        }
                        assert forall|t: int| 0 <= t < 8 implies #[trigger] gf2::mat_mul(
                            rb,
                            self@,
                            8,
                        )[t] == lb[t] by {
                            assert(gf2::mat_mul(rb, self@, 8)[t] == gf2::row_combine(
                                rb[t],
                                self@,
                                8,
                            ));
                            assert(gf2::mat_mul(ra, self@, 8)[t] == gf2::row_combine(
                                ra[t],
                                self@,
                                8,
                            ));
                            if t == ri {
                                gf2::lemma_row_combine_linear(ra[ri], ra[ci], self@, 8);
                                assert(gf2::mat_mul(ra, self@, 8)[ci] == gf2::row_combine(
                                    ra[ci],
                                    self@,
                                    8,
                                ));
                            }
                        }
                        assert(gf2::mat_mul(rb, self@, 8) =~= lb);
                        assert forall|c: int, t: int|
                            0 <= c < col && 0 <= t < 8 implies #[trigger] lb[t][c] == (t == c) by {
                            assert(la[t][c] == (t == c));
                            if t == ri {
                                assert(la[ci][c] == (ci == c));
                            }
                        }
                        assert(lb[ci][ci]);
                        assert(!lb[ri][ci]);
                    }
                }
            }
            proof {
                assert forall|c: int, t: int|
                    0 <= c < col + 1 && 0 <= t < 8 implies #[trigger] rows8_view(left@)[t][c] == (t
                    == c) by {}
            }
        }
        proof {
            let lv = rows8_view(left@);
            let rv = rows8_view(right@);
            assert forall|t: int| 0 <= t < 8 implies #[trigger] lv[t] == gf2::ident_mat(8)[t] by {
                assert(lv[t] =~= gf2::unit_vec(8, t));
            }
            assert(lv =~= gf2::ident_mat(8));
        }
        let cand = Matrix8 { rows: right };
        proof {
            assert(cand@ =~= rows8_view(cand.rows@));
            assert(gf2::mat_mul(cand@, self@, 8) == gf2::ident_mat(8));
        }
        let p2 = self.mul(&cand);
        if bytes_vec_equal(&p2.rows, &idm.rows) {
            proof {
                assert(p2@ =~= idm@);
            }
            Some(cand)
        } else {
            proof {
                if gf2::mat_mul(self@, cand@, 8) == gf2::ident_mat(8) {
                    assert forall|t: int| 0 <= t < 8 implies #[trigger] p2.rows@[t]
                        == idm.rows@[t] by {
                        assert(p2@[t] == idm@[t]);
                        assert forall|j: int| 0 <= j < 8 implies gf2::u8_bit(p2.rows@[t], j)
                            == gf2::u8_bit(idm.rows@[t], j) by {
                            assert(p2@[t][j] == idm@[t][j]);
                        }
                        gf2::lemma_u8_eq_from_bits(p2.rows@[t], idm.rows@[t]);
                    }
                    assert(p2.rows@ =~= idm.rows@);
                }
                gf2::lemma_one_sided_not_invertible(self@, cand@, 8);
            }
            None
        }
    }

    /// Decides invertibility: true exactly when a two-sided inverse
    /// exists.
    pub fn is_invertible(&self) -> (r: bool)
        requires
            self.wf(),
        ensures
            r == gf2::invertible(self@, 8),
    {
        match self.invert() {
            Some(inv) => {
                proof {
                    assert(gf2::wf_mat(inv@, 8, 8));
                    assert(gf2::invertible(self@, 8));
                }
                true
            },
            None => false,
        }
    }

    /// Reads the entry at (i, j).
    pub fn bit(&self, i: usize, j: usize) -> (r: bool)
        requires
            self.wf(),
            i < 8,
            j < 8,
        ensures
            r == self@[i as int][j as int],
    {
        let row = self.rows[i];
        proof {
            assert(self@[i as int][j as int] == gf2::u8_bit(row, j as int));
        }
        (row >> (j as u8)) & 1 == 1
    }

    /// Exposes the packed rows; bit j of entry i is the entry at (i, j).
    pub fn rows(&self) -> (r: &Vec<u8>)
        requires
            self.wf(),
        ensures
            r@.len() == 8,
            forall|i: int| 0 <= i < 8 ==> gf2::u8_bits(r@[i]) == self@[i],
    {
        &self.rows
    }
}

/// The 256 bits of one packed row; word `base + w` holds bits `64w..64w+64`.
pub open spec fn packed_row_bits(words: Seq<u64>, base: int) -> Seq<bool> {
    Seq::new(256, |j: int| gf2::u64_bit(words[base + j / 64], j % 64))
}

/// The block positions a sparse-banded matrix may use: the diagonal, the
/// first super-diagonal, and the wrap position (31, 0).
pub open spec fn allowed_block(rb: int, cb: int) -> bool {
    cb == rb || cb == rb + 1 || (rb == 31 && cb == 0)
}

/// A 256x256 bit matrix whose entries outside the allowed 8x8 blocks are
/// all zero.
pub open spec fn sparse_banded(m: Seq<Seq<bool>>) -> bool {
    forall|r: int, c: int|
        0 <= r < 256 && 0 <= c < 256 && !allowed_block(r / 8, c / 8) ==> !(#[trigger] m[r][c])
}

/// Bounds of the word index and bit offset of a column.
proof fn lemma_idx(c: int)
    requires
        0 <= c < 256,
    ensures
        0 <= c / 64 < 4,
        0 <= c % 64 < 64,
        c == 64 * (c / 64) + c % 64,
{
    assert(0 <= c / 64 < 4 && 0 <= c % 64 < 64 && c == 64 * (c / 64) + c % 64) by (nonlinear_arith)
        requires
            0 <= c < 256,
    ;
}

/// Two positions stored in the same word lie in the same row and word slot.
proof fn lemma_same_word(r1: int, c1: int, r2: int, c2: int)
    requires
        0 <= r1 < 256,
        0 <= c1 < 256,
        0 <= r2 < 256,
        0 <= c2 < 256,
        4 * r1 + c1 / 64 == 4 * r2 + c2 / 64,
    ensures
        r1 == r2,
        c1 / 64 == c2 / 64,
{
    lemma_idx(c1);
    lemma_idx(c2);
    assert(r1 == r2 && c1 / 64 == c2 / 64) by (nonlinear_arith)
        requires
            0 <= c1 / 64 < 4,
            0 <= c2 / 64 < 4,
            4 * r1 + c1 / 64 == 4 * r2 + c2 / 64,
    ;
}

/// The 8x8 block of a 256x256 bit matrix at block position (rb, cb).
pub open spec fn block_spec(m: Seq<Seq<bool>>, rb: int, cb: int) -> Seq<Seq<bool>> {
    Seq::new(8, |r: int| Seq::new(8, |c: int| m[8 * rb + r][8 * cb + c]))
}

/// The 32-byte vector whose byte i is v and whose other bytes are zero.
pub open spec fn byte_at(i: int, v: u8) -> Seq<u8> {
    Seq::new(32, |t: int| if t == i { v } else { 0u8 })
}

/// A diagonal block not covered by a written block keeps its contents.
proof fn lemma_diag_block_unchanged(
    before: Seq<Seq<bool>>,
    after: Seq<Seq<bool>>,
    k: int,
    rb: int,
    cb: int,
)
    requires
        0 <= k < 32,
        0 <= rb < 32,
        0 <= cb < 32,
        !(rb == k && cb == k),
        forall|r: int, c: int|
            0 <= r < 256 && 0 <= c < 256 && !(8 * rb <= r < 8 * rb + 8 && 8 * cb <= c < 8 * cb + 8)
                ==> #[trigger] after[r][c] == before[r][c],
    ensures
        block_spec(after, k, k) == block_spec(before, k, k),
{
    assert forall|i: int| 0 <= i < 8 implies #[trigger] block_spec(after, k, k)[i] == block_spec(
        before,
        k,
        k,
    )[i] by {
        assert forall|j: int| 0 <= j < 8 implies #[trigger] block_spec(after, k, k)[i][j]
            == block_spec(before, k, k)[i][j] by {
            assert((8 * rb <= 8 * k + i < 8 * rb + 8 ==> rb == k) && (8 * cb <= 8 * k + j < 8 * cb
                + 8 ==> cb == k)) by (nonlinear_arith)
                requires
                    0 <= i < 8,
                    0 <= j < 8,
                    0 <= k < 32,
                    0 <= rb < 32,
                    0 <= cb < 32,
            ;
            assert(after[8 * k + i][8 * k + j] == before[8 * k + i][8 * k + j]);
        }
        assert(block_spec(after, k, k)[i] =~= block_spec(before, k, k)[i]);
    }
    assert(block_spec(after, k, k) =~= block_spec(before, k, k));
}

/// Writing an allowed 8x8 block keeps a matrix sparse-banded.
proof fn lemma_sparse_after_set_block(before: Seq<Seq<bool>>, after: Seq<Seq<bool>>, rb: int, cb: int)
    requires
        sparse_banded(before),
        allowed_block(rb, cb),
        0 <= rb < 32,
        0 <= cb < 32,
        forall|r: int, c: int|
            0 <= r < 256 && 0 <= c < 256 && !(8 * rb <= r < 8 * rb + 8 && 8 * cb <= c < 8 * cb + 8)
                ==> #[trigger] after[r][c] == before[r][c],
    ensures
        sparse_banded(after),
{
    assert forall|r: int, c: int|
        0 <= r < 256 && 0 <= c < 256 && !allowed_block(r / 8, c / 8) implies !(
    #[trigger] after[r][c]) by {
        if 8 * rb <= r < 8 * rb + 8 && 8 * cb <= c < 8 * cb + 8 {
            assert(r / 8 == rb && c / 8 == cb) by (nonlinear_arith)
                requires
                    8 * rb <= r < 8 * rb + 8,
                    8 * cb <= c < 8 * cb + 8,
            ;
        } else {
            assert(after[r][c] == before[r][c]);
        }
    }
}

/// How a column index splits across words and bytes of a packed row.
proof fn lemma_col_split(col: int)
    requires
        0 <= col < 256,
    ensures
        0 <= col / 64 < 4,
        0 <= (col % 64) / 8 < 8,
        0 <= col % 8 < 8,
        0 <= col / 8 < 32,
        col / 8 == 8 * (col / 64) + (col % 64) / 8,
        8 * ((col % 64) / 8) + col % 8 == col % 64,
{
    assert(0 <= col / 64 < 4 && 0 <= (col % 64) / 8 < 8 && 0 <= col % 8 < 8 && 0 <= col / 8 < 32
        && col / 8 == 8 * (col / 64) + (col % 64) / 8 && 8 * ((col % 64) / 8) + col % 8 == col
        % 64) by (nonlinear_arith)
        requires
            0 <= col < 256,
    ;
}

/// Bounds of the byte index and bit offset of a position in a 32-byte
/// vector.
proof fn lemma_idx8(c: int)
    requires
        0 <= c < 256,
    ensures
        0 <= c / 8 < 32,
        0 <= c % 8 < 8,
        c == 8 * (c / 8) + c % 8,
{
    assert(0 <= c / 8 < 32 && 0 <= c % 8 < 8 && c == 8 * (c / 8) + c % 8) by (nonlinear_arith)
        requires
            0 <= c < 256,
    ;
}

/// Two positions with the same byte index and bit offset coincide.
proof fn lemma_same_byte(t: int, i: int)
    requires
        0 <= t < 256,
        0 <= i < 256,
        t / 8 == i / 8,
        t % 8 == i % 8,
    ensures
        t == i,
{
    lemma_idx8(t);
    lemma_idx8(i);
}

/// 256x256 binary matrix over GF(2), row-major, each row packed into four
/// 64-bit words; bit `c % 64` of word `4r + c / 64` is the entry at (r, c).
#[derive(Clone, Debug, PartialEq, Eq)]
pub struct Matrix256 {
    rows: Vec<u64>,
}

impl View for Matrix256 {
    type V = Seq<Seq<bool>>;

    closed spec fn view(&self) -> Seq<Seq<bool>> {
        Seq::new(256, |i: int| packed_row_bits(self.rows@, 4 * i))
    }
}

/// Every `Matrix256` view is a 256x256 bit matrix.
pub broadcast proof fn lemma_matrix256_shape(m: Matrix256)
    ensures
        gf2::wf_mat(#[trigger] m@, 256, 256),
{
}

/// The bit rows of 1024 packed words, four words per row.
spec fn rows256_view(words: Seq<u64>) -> Seq<Seq<bool>> {
    Seq::new(256, |i: int| packed_row_bits(words, 4 * i))
}

/// A word of a row other than two given rows lies outside both rows'
/// word ranges.
proof fn lemma_same_word_disjoint(t: int, j: int, r1: int, r2: int)
    requires
        0 <= t < 256,
        0 <= j < 256,
        0 <= r1 < 256,
        0 <= r2 < 256,
        t != r1,
        t != r2,
    ensures
        !(4 * r1 <= 4 * t + j / 64 < 4 * r1 + 4),
        !(4 * r2 <= 4 * t + j / 64 < 4 * r2 + 4),
{
    lemma_idx(j);
}

/// Equal bit views force equal packed words.
proof fn lemma_word_eq_from_view(a: Seq<u64>, b: Seq<u64>, t: int)
    requires
        a.len() == 1024,
        b.len() == 1024,
        0 <= t < 1024,
        rows256_view(a) == rows256_view(b),
    ensures
        a[t] == b[t],
{
    let row = t / 4;
    let k = t % 4;
    assert(0 <= row < 256 && 0 <= k < 4 && t == 4 * row + k) by (nonlinear_arith)
        requires
            0 <= t < 1024,
            row == t / 4,
            k == t % 4,
    ;
    assert forall|j: int| 0 <= j < 64 implies gf2::u64_bit(a[t], j) == gf2::u64_bit(b[t], j) by {
        let c = 64 * k + j;
        assert(0 <= c < 256 && c / 64 == k && c % 64 == j) by (nonlinear_arith)
            requires
                0 <= j < 64,
                0 <= k < 4,
                c == 64 * k + j,
        ;
        assert(rows256_view(a)[row][c] == gf2::u64_bit(a[4 * row + c / 64], c % 64));
        assert(rows256_view(b)[row][c] == gf2::u64_bit(b[4 * row + c / 64], c % 64));
    }
    gf2::lemma_u64_eq_from_bits(a[t], b[t]);
}

/// Word vectors of equal length agree exactly when every entry agrees.
fn words_vec_equal(a: &Vec<u64>, b: &Vec<u64>) -> (r: bool)
    requires
        a@.len() == b@.len(),
    ensures
        r == (a@ == b@),
{
    let n = a.len();
    for i in 0..n
        invariant
            n == a@.len(),
            a@.len() == b@.len(),
            forall|t: int| 0 <= t < i ==> a@[t] == b@[t],
    {
        if a[i] != b[i] {
            return false;
        }
    }
    proof {
        assert(a@ =~= b@);
    }
    true
}

impl Matrix256 {
    /// The representation holds exactly 1024 packed words.
    pub closed spec fn wf(&self) -> bool {
        self.rows@.len() == 1024
    }

    /// Returns the zero matrix.
    pub fn zero() -> (r: Matrix256)
        ensures
            r.wf(),
            r@ == gf2::zero_mat(256, 256),
    {
        let mut rows: Vec<u64> = Vec::new();
        for i in 0..1024usize
            invariant
                rows@.len() == i,
                forall|t: int| 0 <= t < i ==> rows@[t] == 0u64,
        {
            rows.push(0);
        }
        let r = Matrix256 { rows };
        proof {
            assert forall|i: int| 0 <= i < 256 implies r@[i] == gf2::zero_vec(256) by {
                assert forall|j: int| 0 <= j < 256 implies !(r@[i][j]) by {
                    lemma_idx(j);
                    gf2::lemma_u64_zero_bit(j % 64);
                    assert(r.rows@[4 * i + j / 64] == 0u64);
                }
                assert(r@[i] =~= gf2::zero_vec(256));
            }
            assert(r@ =~= gf2::zero_mat(256, 256));
        }
        r
    }

    /// Reads the entry at (row, col).
    pub fn bit(&self, row: usize, col: usize) -> (r: bool)
        requires
            self.wf(),
            row < 256,
            col < 256,
        ensures
            r == self@[row as int][col as int],
    {
        proof {
            lemma_idx(col as int);
        }
        let w = self.rows[4 * row + col / 64];
        proof {
            assert(self@[row as int][col as int] == gf2::u64_bit(w, (col as int) % 64));
        }
        (w >> ((col % 64) as u64)) & 1 == 1
    }

    /// Writes the entry at (row, col), leaving every other entry unchanged.
    fn set_bit(&mut self, row: usize, col: usize, value: bool)
        requires
            old(self).wf(),
            row < 256,
            col < 256,
        ensures
            final(self).wf(),
            final(self)@[row as int][col as int] == value,
            forall|r: int, c: int|
                0 <= r < 256 && 0 <= c < 256 && !(r == row as int && c == col as int)
                    ==> final(self)@[r][c] == old(self)@[r][c],
    {
        proof {
            lemma_idx(col as int);
        }
        let idx = 4 * row + col / 64;
        let off = (col % 64) as u64;
        let w = self.rows[idx];
        let nw = if value {
            w | (1u64 << off)
        } else {
            w & !(1u64 << off)
        };
        self.rows.set(idx, nw);
        proof {
            let ri = row as int;
            let ci = col as int;
            assert(self@[ri][ci] == gf2::u64_bit(nw, ci % 64));
            if value {
                gf2::lemma_u64_or_bit(w, off, (ci % 64) as u64);
            } else {
                gf2::lemma_u64_clear_bit(w, off, (ci % 64) as u64);
            }
            assert(self@[ri][ci] == value);
            assert forall|r: int, c: int|
                0 <= r < 256 && 0 <= c < 256 && !(r == ri && c == ci) implies self@[r][c] == old(
                self,
            )@[r][c] by {
                lemma_idx(c);
                let widx = 4 * r + c / 64;
                assert(self@[r][c] == gf2::u64_bit(self.rows@[widx], c % 64));
                assert(old(self)@[r][c] == gf2::u64_bit(old(self).rows@[widx], c % 64));
                if widx == idx as int {
                    lemma_same_word(r, c, ri, ci);
                    assert(c % 64 != ci % 64);
                    if value {
                        gf2::lemma_u64_or_bit(w, off, (c % 64) as u64);
                    } else {
                        gf2::lemma_u64_clear_bit(w, off, (c % 64) as u64);
                    }
                } else {
                    assert(self.rows@[widx] == old(self).rows@[widx]);
                }
            }
        }
    }

    /// Returns the identity matrix.
    pub fn identity() -> (r: Matrix256)
        ensures
            r.wf(),
            r@ == gf2::ident_mat(256),
    {
        let mut m = Matrix256::zero();
        for i in 0..256usize
            invariant
                m.wf(),
                forall|r: int, c: int|
                    0 <= r < 256 && 0 <= c < 256 ==> #[trigger] m@[r][c] == (r == c && r < i),
        {
            m.set_bit(i, i, true);
        }
        proof {
            assert forall|i: int| 0 <= i < 256 implies m@[i] == gf2::ident_mat(256)[i] by {
                assert(gf2::ident_mat(256)[i] == gf2::unit_vec(256, i));
                assert(m@[i] =~= gf2::unit_vec(256, i));
            }
            assert(m@ =~= gf2::ident_mat(256));
        }
        m
    }

    /// Extracts the 8x8 block at (row_block, col_block).
    pub fn block(&self, row_block: usize, col_block: usize) -> (r: Matrix8)
        requires
            self.wf(),
            row_block < 32,
            col_block < 32,
        ensures
            r.wf(),
            forall|i: int, j: int|
                0 <= i < 8 && 0 <= j < 8 ==> #[trigger] r@[i][j] == self@[8 * (row_block as int)
                    + i][8 * (col_block as int) + j],
    {
        let mut rows: Vec<u8> = Vec::new();
        for i in 0..8usize
            invariant
                self.wf(),
                row_block < 32,
                col_block < 32,
                rows@.len() == i,
                forall|t: int, j: int|
                    0 <= t < i && 0 <= j < 8 ==> #[trigger] gf2::u8_bit(rows@[t], j) == self@[8 * (
                    row_block as int) + t][8 * (col_block as int) + j],
        {
            let mut byte: u8 = 0;
            proof {
                assert forall|t: int| 0 <= t < 8 implies !gf2::u8_bit(byte, t) by {
                    gf2::lemma_u8_bits_zero();
                    assert(gf2::u8_bits(0)[t] == gf2::zero_vec(8)[t]);
                }
            }
            for j in 0..8u8
                invariant
                    self.wf(),
                    row_block < 32,
                    col_block < 32,
                    i < 8,
                    forall|t: int|
                        0 <= t < j ==> #[trigger] gf2::u8_bit(byte, t) == self@[8 * (
                        row_block as int) + i][8 * (col_block as int) + t],
                    forall|t: int| j <= t < 8 ==> !gf2::u8_bit(byte, t),
            {
                if self.bit(8 * row_block + i, 8 * col_block + (j as usize)) {
                    let ghost prev = byte;
                    byte = byte | (1u8 << j);
                    proof {
                        assert forall|t: int| 0 <= t < 8 implies gf2::u8_bit(byte, t) == (t
                            == j as int || gf2::u8_bit(prev, t)) by {
                            gf2::lemma_u8_set_bit(prev, j, t as u8);
                        }
                    }
                }
            }
            rows.push(byte);
        }
        let r = Matrix8::from_rows(rows);
        proof {
            assert forall|i: int, j: int| 0 <= i < 8 && 0 <= j < 8 implies #[trigger] r@[i][j]
                == self@[8 * (row_block as int) + i][8 * (col_block as int) + j] by {
                assert(r@[i] == gf2::u8_bits(rows@[i]));
                assert(gf2::u8_bits(rows@[i])[j] == gf2::u8_bit(rows@[i], j));
            }
        }
        r
    }

    /// The positions already written while a block is being copied: the
    /// first i full rows of the block, and the first j cells of row i.
    spec fn block_region(rb: int, cb: int, i: int, j: int, r: int, c: int) -> bool {
        (8 * rb <= r < 8 * rb + i && 8 * cb <= c < 8 * cb + 8) || (r == 8 * rb + i && 8 * cb <= c
            < 8 * cb + j)
    }

    /// Overwrites the 8x8 block at (row_block, col_block), leaving every
    /// entry outside the block unchanged.
    pub fn set_block(&mut self, row_block: usize, col_block: usize, block: &Matrix8)
        requires
            old(self).wf(),
            row_block < 32,
            col_block < 32,
            block.wf(),
        ensures
            final(self).wf(),
            forall|i: int, j: int|
                0 <= i < 8 && 0 <= j < 8 ==> #[trigger] final(self)@[8 * (row_block as int) + i][8
                    * (col_block as int) + j] == block@[i][j],
            forall|r: int, c: int|
                0 <= r < 256 && 0 <= c < 256 && !(8 * (row_block as int) <= r < 8 * (
                row_block as int) + 8 && 8 * (col_block as int) <= c < 8 * (col_block as int) + 8)
                    ==> #[trigger] final(self)@[r][c] == old(self)@[r][c],
    {
        let ghost rb = row_block as int;
        let ghost cb = col_block as int;
        for i in 0..8usize
            invariant
                self.wf(),
                row_block < 32,
                col_block < 32,
                block.wf(),
                rb == row_block as int,
                cb == col_block as int,
                forall|ii: int, j: int|
                    0 <= ii < i && 0 <= j < 8 ==> #[trigger] self@[8 * rb + ii][8 * cb + j]
                        == block@[ii][j],
                forall|r: int, c: int|
                    0 <= r < 256 && 0 <= c < 256 && !Self::block_region(rb, cb, i as int, 0, r, c)
                        ==> #[trigger] self@[r][c] == old(self)@[r][c],
        {
            for j in 0..8usize
                invariant
                    self.wf(),
                    row_block < 32,
                    col_block < 32,
                    block.wf(),
                    i < 8,
                    rb == row_block as int,
                    cb == col_block as int,
                    forall|ii: int, jj: int|
                        0 <= ii < i && 0 <= jj < 8 ==> #[trigger] self@[8 * rb + ii][8 * cb + jj]
                            == block@[ii][jj],
                    forall|jj: int|
                        0 <= jj < j ==> #[trigger] self@[8 * rb + i][8 * cb + jj] == block@[
                            i as int
                        ][jj],
                    forall|r: int, c: int|
                        0 <= r < 256 && 0 <= c < 256 && !Self::block_region(
                            rb,
                            cb,
                            i as int,
                            j as int,
                            r,
                            c,
                        ) ==> #[trigger] self@[r][c] == old(self)@[r][c],
            {
                let v = block.bit(i, j);
                self.set_bit(8 * row_block + i, 8 * col_block + j, v);
            }
        }
    }

    /// Multiplies two matrices: row i of the result is the XOR of the rows
    /// of `rhs` selected by the bits of row i of `self`.
    pub fn mul(&self, rhs: &Matrix256) -> (r: Matrix256)
        requires
            self.wf(),
            rhs.wf(),
        ensures
            r.wf(),
            r@ == gf2::mat_mul(self@, rhs@, 256),
    {
        let mut rows: Vec<u64> = Vec::new();
        for i in 0..256usize
            invariant
                self.wf(),
                rhs.wf(),
                rows@.len() == 4 * i,
                forall|t: int|
                    0 <= t < i ==> #[trigger] packed_row_bits(rows@, 4 * t) == gf2::row_combine(
                        self@[t],
                        rhs@,
                        256,
                    ),
        {
            let mut acc: Vec<u64> = Vec::new();
            acc.push(0);
            acc.push(0);
            acc.push(0);
            acc.push(0);
            proof {
                assert forall|t: int| 0 <= t < 256 implies !packed_row_bits(acc@, 0)[t] by {
                    lemma_idx(t);
                    gf2::lemma_u64_zero_bit(t % 64);
                }
                assert(self@[i as int].take(0) =~= Seq::<bool>::empty());
                assert(rhs@.take(0) =~= Seq::<Seq<bool>>::empty());
                assert(packed_row_bits(acc@, 0) =~= gf2::zero_vec(256));
            }
            for j in 0..256usize
                invariant
                    self.wf(),
                    rhs.wf(),
                    i < 256,
                    acc@.len() == 4,
                    packed_row_bits(acc@, 0) == gf2::row_combine(
                        self@[i as int].take(j as int),
                        rhs@.take(j as int),
                        256,
                    ),
            {
                proof {
                    gf2::lemma_row_combine_take_step(self@[i as int], rhs@, 256, j as int);
                }
                if self.bit(i, j) {
                    let ghost acc_snap = acc@;
                    let w0 = acc[0] ^ rhs.rows[4 * j];
                    let w1 = acc[1] ^ rhs.rows[4 * j + 1];
                    let w2 = acc[2] ^ rhs.rows[4 * j + 2];
                    let w3 = acc[3] ^ rhs.rows[4 * j + 3];
                    acc.set(0, w0);
                    acc.set(1, w1);
                    acc.set(2, w2);
                    acc.set(3, w3);
                    proof {
                        assert forall|t: int| 0 <= t < 256 implies #[trigger] packed_row_bits(
                            acc@,
                            0,
                        )[t] == (packed_row_bits(acc_snap, 0)[t] != rhs@[j as int][t]) by {
                            lemma_idx(t);
                            assert(acc@[t / 64] == acc_snap[t / 64] ^ rhs.rows@[4 * (j as int) + t
                                / 64]);
                            gf2::lemma_u64_xor_bit(
                                acc_snap[t / 64],
                                rhs.rows@[4 * (j as int) + t / 64],
                                t % 64,
                            );
                        }
                        assert(packed_row_bits(acc@, 0) =~= gf2::vec_xor(
                            packed_row_bits(acc_snap, 0),
                            rhs@[j as int],
                        ));
                    }
                }
            }
            proof {
                assert(self@[i as int].take(256) =~= self@[i as int]);
                assert(rhs@.take(256) =~= rhs@);
            }
            let ghost rows_snap = rows@;
            let a0 = acc[0];
            let a1 = acc[1];
            let a2 = acc[2];
            let a3 = acc[3];
            rows.push(a0);
            rows.push(a1);
            rows.push(a2);
            rows.push(a3);
            proof {
                assert forall|t: int| 0 <= t < i implies #[trigger] packed_row_bits(rows@, 4 * t)
                    == packed_row_bits(rows_snap, 4 * t) by {
                    assert forall|jj: int| 0 <= jj < 256 implies #[trigger] packed_row_bits(
                        rows@,
                        4 * t,
                    )[jj] == packed_row_bits(rows_snap, 4 * t)[jj] by {
                        lemma_idx(jj);
                        assert(rows@[4 * t + jj / 64] == rows_snap[4 * t + jj / 64]);
                    }
                    assert(packed_row_bits(rows@, 4 * t) =~= packed_row_bits(rows_snap, 4 * t));
                }
                assert forall|jj: int| 0 <= jj < 256 implies packed_row_bits(rows@, 4 * i)[jj]
                    == packed_row_bits(acc@, 0)[jj] by {
                    lemma_idx(jj);
                    assert(rows@[4 * i + jj / 64] == acc@[jj / 64]);
                }
                assert(packed_row_bits(rows@, 4 * i) =~= packed_row_bits(acc@, 0));
            }
        }
        let r = Matrix256 { rows };
        proof {
            assert(r@ =~= gf2::mat_mul(self@, rhs@, 256));
        }
        r
    }

    /// Attempts to invert the matrix. Gaussian elimination on four-word
    /// rows reduces a copy of the matrix while mirroring every row
    /// operation on an identity companion. The loop invariants show that
    /// row operations preserve which vectors go to zero and that the
    /// companion times the original equals the reduced copy, so a `Some`
    /// result is a proven two-sided inverse and a `None` result proves the
    /// matrix singular: a stuck column exhibits a kernel vector, and a
    /// one-sided inverse that fails on the other side rules out any
    /// two-sided one.
    pub fn invert(&self) -> (r: Option<Matrix256>)
        requires
            self.wf(),
        ensures
            match r {
                Some(inv) => {
                    &&& inv.wf()
                    &&& gf2::mat_mul(inv@, self@, 256) == gf2::ident_mat(256)
                    &&& gf2::mat_mul(self@, inv@, 256) == gf2::ident_mat(256)
                },
                None => !gf2::invertible(self@, 256),
            },
    {
        let mut left: Vec<u64> = vstd::slice::slice_to_vec(self.rows.as_slice());
        let idm = Matrix256::identity();
        let mut right: Vec<u64> = vstd::slice::slice_to_vec(idm.rows.as_slice());
        proof {
            assert(gf2::wf_mat(self@, 256, 256));
            assert(rows256_view(left@) =~= self@);
            assert(rows256_view(right@) =~= idm@);
            gf2::lemma_mat_mul_ident(self@, 256);
        }
        for col in 0..256usize
            invariant
                self.wf(),
                left@.len() == 1024,
                right@.len() == 1024,
                forall|v: Seq<bool>|
                    v.len() == 256 ==> (((#[trigger] gf2::mat_apply(rows256_view(left@), v))
                        == gf2::zero_vec(256)) <==> (gf2::mat_apply(self@, v) == gf2::zero_vec(
                        256,
                    ))),
                forall|c: int, t: int|
                    0 <= c < col && 0 <= t < 256 ==> #[trigger] rows256_view(left@)[t][c] == (t
                        == c),
                rows256_view(left@) == gf2::mat_mul(rows256_view(right@), self@, 256),
        {
            proof {
                lemma_idx(col as int);
            }
            let seg = col / 64;
            let off = (col % 64) as u64;
            let ghost lv0 = rows256_view(left@);
            let mut pivot: usize = 256;
            for row in col..256usize
                invariant
                    left@.len() == 1024,
                    col < 256,
                    seg == col as int / 64,
                    off == (col as int % 64) as u64,
                    off < 64,
                    rows256_view(left@) == lv0,
                    pivot == 256 ==> forall|t: int|
                        col <= t < row ==> !(#[trigger] lv0[t][col as int]),
                    pivot != 256 ==> col <= pivot < 256 && lv0[pivot as int][col as int],
            {
                proof {
                    lemma_idx(col as int);
                    assert(lv0[row as int][col as int] == gf2::u64_bit(
                        left@[4 * (row as int) + col as int / 64],
                        col as int % 64,
                    ));
                }
                if pivot == 256 && ((left[4 * row + seg] >> off) & 1 == 1) {
                    pivot = row;
                }
            }
            if pivot == 256 {
                proof {
                    assert(gf2::wf_mat(lv0, 256, 256));
                    gf2::lemma_stuck_elimination_kernel(lv0, 256, col as int);
                    let w = gf2::stuck_witness(lv0, 256, col as int);
                    assert(gf2::mat_apply(lv0, w) == gf2::zero_vec(256));
                    assert(gf2::mat_apply(self@, w) == gf2::zero_vec(256));
                    assert(w[col as int]);
                    gf2::lemma_kernel_not_invertible(self@, w, 256, col as int);
                }
                return None;
            }
            if pivot != col {
                let ghost l_old = left@;
                let ghost r_old = right@;
                let a0 = left[4 * pivot];
                let a1 = left[4 * pivot + 1];
                let a2 = left[4 * pivot + 2];
                let a3 = left[4 * pivot + 3];
                let b0 = left[4 * col];
                let b1 = left[4 * col + 1];
                let b2 = left[4 * col + 2];
                let b3 = left[4 * col + 3];
                left.set(4 * pivot, b0);
                left.set(4 * pivot + 1, b1);
                left.set(4 * pivot + 2, b2);
                left.set(4 * pivot + 3, b3);
                left.set(4 * col, a0);
                left.set(4 * col + 1, a1);
                left.set(4 * col + 2, a2);
                left.set(4 * col + 3, a3);
                let c0 = right[4 * pivot];
                let c1 = right[4 * pivot + 1];
                let c2 = right[4 * pivot + 2];
                let c3 = right[4 * pivot + 3];
                let d0 = right[4 * col];
                let d1 = right[4 * col + 1];
                let d2 = right[4 * col + 2];
                let d3 = right[4 * col + 3];
                right.set(4 * pivot, d0);
                right.set(4 * pivot + 1, d1);
                right.set(4 * pivot + 2, d2);
                right.set(4 * pivot + 3, d3);
                right.set(4 * col, c0);
                right.set(4 * col + 1, c1);
                right.set(4 * col + 2, c2);
                right.set(4 * col + 3, c3);
                proof {
                    let la = rows256_view(l_old);
                    let lb = rows256_view(left@);
                    let ra = rows256_view(r_old);
                    let rb = rows256_view(right@);
                    let pi = pivot as int;
                    let ci = col as int;
                    assert forall|t: int, j: int| 0 <= t < 256 && 0 <= j < 256 implies #[trigger] lb[
                        t
                    ][j] == la.update(pi, la[ci]).update(ci, la[pi])[t][j] by {
                        lemma_idx(j);
                        if t == pi {
                            assert(left@[4 * pi + j / 64] == l_old[4 * ci + j / 64]);
                        } else if t == ci {
                            assert(left@[4 * ci + j / 64] == l_old[4 * pi + j / 64]);
                        } else {
                            assert(left@[4 * t + j / 64] == l_old[4 * t + j / 64]) by {
                                lemma_same_word_disjoint(t, j, pi, ci);
                            }
                        }
                    }
                    assert forall|t: int| 0 <= t < 256 implies #[trigger] lb[t] == la.update(
                        pi,
                        la[ci],
                    ).update(ci, la[pi])[t] by {
                        assert(lb[t] =~= la.update(pi, la[ci]).update(ci, la[pi])[t]);
                    }
                    assert(lb =~= la.update(pi, la[ci]).update(ci, la[pi]));
                    assert forall|t: int, j: int| 0 <= t < 256 && 0 <= j < 256 implies #[trigger] rb[
                        t
                    ][j] == ra.update(pi, ra[ci]).update(ci, ra[pi])[t][j] by {
                        lemma_idx(j);
                        if t == pi {
                            assert(right@[4 * pi + j / 64] == r_old[4 * ci + j / 64]);
                        } else if t == ci {
                            assert(right@[4 * ci + j / 64] == r_old[4 * pi + j / 64]);
                        } else {
                            assert(right@[4 * t + j / 64] == r_old[4 * t + j / 64]) by {
                                lemma_same_word_disjoint(t, j, pi, ci);
                            }
                        }
                    }
                    assert forall|t: int| 0 <= t < 256 implies #[trigger] rb[t] == ra.update(
                        pi,
                        ra[ci],
                    ).update(ci, ra[pi])[t] by {
                        assert(rb[t] =~= ra.update(pi, ra[ci]).update(ci, ra[pi])[t]);
                    }
                    assert(rb =~= ra.update(pi, ra[ci]).update(ci, ra[pi]));
                    assert forall|v: Seq<bool>| v.len() == 256 implies (((
                    #[trigger] gf2::mat_apply(lb, v)) == gf2::zero_vec(256)) <==> (gf2::mat_apply(
                        self@,
                        v,
                    ) == gf2::zero_vec(256))) by {
                        gf2::lemma_swap_kernel(la, lb, pi, ci, 256, v);
                        assert(gf2::mat_apply(la, v) == gf2::mat_apply(rows256_view(l_old), v));
                    }
                    assert forall|t: int| 0 <= t < 256 implies #[trigger] gf2::mat_mul(
                        rb,
                        self@,
                        256,
                    )[t] == lb[t] by {
                        assert(gf2::mat_mul(rb, self@, 256)[t] == gf2::row_combine(
                            rb[t],
                            self@,
                            256,
                        ));
                        assert(gf2::mat_mul(ra, self@, 256)[t] == gf2::row_combine(
                            ra[t],
                            self@,
                            256,
                        ));
                        assert(gf2::mat_mul(ra, self@, 256)[pi] == gf2::row_combine(
                            ra[pi],
                            self@,
                            256,
                        ));
                        assert(gf2::mat_mul(ra, self@, 256)[ci] == gf2::row_combine(
                            ra[ci],
                            self@,
                            256,
                        ));
                    }
                    assert(gf2::mat_mul(rb, self@, 256) =~= lb);
                    assert forall|c: int, t: int|
                        0 <= c < col && 0 <= t < 256 implies #[trigger] lb[t][c] == (t == c) by {
                        if t == pi {
                            assert(la[ci][c] == (ci == c));
                        } else if t == ci {
                            assert(la[pi][c] == (pi == c));
                        } else {
                            assert(la[t][c] == (t == c));
                        }
                    }
                    assert(lb[ci][ci]);
                }
            }
            let lc0 = left[4 * col];
            let lc1 = left[4 * col + 1];
            let lc2 = left[4 * col + 2];
            let lc3 = left[4 * col + 3];
            let rc0 = right[4 * col];
            let rc1 = right[4 * col + 1];
            let rc2 = right[4 * col + 2];
            let rc3 = right[4 * col + 3];
            proof {
                assert(rows256_view(left@)[col as int][col as int]);
            }
            for row in 0..256usize
                invariant
                    self.wf(),
                    left@.len() == 1024,
                    right@.len() == 1024,
                    col < 256,
                    seg == col as int / 64,
                    off == (col as int % 64) as u64,
                    off < 64,
                    lc0 == left@[4 * (col as int)],
                    lc1 == left@[4 * (col as int) + 1],
                    lc2 == left@[4 * (col as int) + 2],
                    lc3 == left@[4 * (col as int) + 3],
                    rc0 == right@[4 * (col as int)],
                    rc1 == right@[4 * (col as int) + 1],
                    rc2 == right@[4 * (col as int) + 2],
                    rc3 == right@[4 * (col as int) + 3],
                    forall|v: Seq<bool>|
                        v.len() == 256 ==> (((#[trigger] gf2::mat_apply(rows256_view(left@), v))
                            == gf2::zero_vec(256)) <==> (gf2::mat_apply(self@, v)
                            == gf2::zero_vec(256))),
                    forall|c: int, t: int|
                        0 <= c < col && 0 <= t < 256 ==> #[trigger] rows256_view(left@)[t][c] == (t
                            == c),
                    rows256_view(left@) == gf2::mat_mul(rows256_view(right@), self@, 256),
                    rows256_view(left@)[col as int][col as int],
                    forall|t: int|
                        0 <= t < row && t != col ==> !(#[trigger] rows256_view(left@)[t][
                            col as int
                        ]),
            {
                proof {
                    lemma_idx(col as int);
                    assert(rows256_view(left@)[row as int][col as int] == gf2::u64_bit(
                        left@[4 * (row as int) + col as int / 64],
                        col as int % 64,
                    ));
                }
                if row != col && ((left[4 * row + seg] >> off) & 1 == 1) {
                    let ghost l_old = left@;
                    let ghost r_old = right@;
                    let ln0 = left[4 * row] ^ lc0;
                    let ln1 = left[4 * row + 1] ^ lc1;
                    let ln2 = left[4 * row + 2] ^ lc2;
                    let ln3 = left[4 * row + 3] ^ lc3;
                    left.set(4 * row, ln0);
                    left.set(4 * row + 1, ln1);
                    left.set(4 * row + 2, ln2);
                    left.set(4 * row + 3, ln3);
                    let rn0 = right[4 * row] ^ rc0;
                    let rn1 = right[4 * row + 1] ^ rc1;
                    let rn2 = right[4 * row + 2] ^ rc2;
                    let rn3 = right[4 * row + 3] ^ rc3;
                    right.set(4 * row, rn0);
                    right.set(4 * row + 1, rn1);
                    right.set(4 * row + 2, rn2);
                    right.set(4 * row + 3, rn3);
                    proof {
                        let la = rows256_view(l_old);
                        let lb = rows256_view(left@);
                        let ra = rows256_view(r_old);
                        let rb = rows256_view(right@);
                        let ri = row as int;
                        let ci = col as int;
                        assert forall|t: int, j: int|
                            0 <= t < 256 && 0 <= j < 256 implies #[trigger] lb[t][j] == la.update(
                            ri,
                            gf2::vec_xor(la[ri], la[ci]),
                        )[t][j] by {
                            lemma_idx(j);
                            if t == ri {
                                assert(left@[4 * ri + j / 64] == l_old[4 * ri + j / 64] ^ l_old[4
                                    * ci + j / 64]);
                                gf2::lemma_u64_xor_bit(
                                    l_old[4 * ri + j / 64],
                                    l_old[4 * ci + j / 64],
                                    j % 64,
                                );
                            } else {
                                assert(left@[4 * t + j / 64] == l_old[4 * t + j / 64]) by {
                                    lemma_same_word_disjoint(t, j, ri, ri);
                                }
                            }
                        }
                        assert forall|t: int| 0 <= t < 256 implies #[trigger] lb[t] == la.update(
                            ri,
                            gf2::vec_xor(la[ri], la[ci]),
                        )[t] by {
                            assert(lb[t] =~= la.update(ri, gf2::vec_xor(la[ri], la[ci]))[t]);
                        }
                        assert(lb =~= la.update(ri, gf2::vec_xor(la[ri], la[ci])));
                        assert forall|t: int, j: int|
                            0 <= t < 256 && 0 <= j < 256 implies #[trigger] rb[t][j] == ra.update(
                            ri,
                            gf2::vec_xor(ra[ri], ra[ci]),
                        )[t][j] by {
                            lemma_idx(j);
                            if t == ri {
                                assert(right@[4 * ri + j / 64] == r_old[4 * ri + j / 64] ^ r_old[4
                                    * ci + j / 64]);
                                gf2::lemma_u64_xor_bit(
                                    r_old[4 * ri + j / 64],
                                    r_old[4 * ci + j / 64],
                                    j % 64,
                                );
                            } else {
                                assert(right@[4 * t + j / 64] == r_old[4 * t + j / 64]) by {
                                    lemma_same_word_disjoint(t, j, ri, ri);
                                }
                            }
                        }
                        assert forall|t: int| 0 <= t < 256 implies #[trigger] rb[t] == ra.update(
                            ri,
                            gf2::vec_xor(ra[ri], ra[ci]),
                        )[t] by {
                            assert(rb[t] =~= ra.update(ri, gf2::vec_xor(ra[ri], ra[ci]))[t]);
                        }
                        assert(rb =~= ra.update(ri, gf2::vec_xor(ra[ri], ra[ci])));
                        assert(gf2::wf_mat(la, 256, 256));
                        assert forall|v: Seq<bool>| v.len() == 256 implies (((
                        #[trigger] gf2::mat_apply(lb, v)) == gf2::zero_vec(256))
                            <==> (gf2::mat_apply(self@, v) == gf2::zero_vec(256))) by {
                            gf2::lemma_rowxor_kernel(la, lb, ri, ci, 256, v);
                            assert(gf2::mat_apply(la, v) == gf2::mat_apply(rows256_view(l_old), v));
                        }
                        assert forall|t: int| 0 <= t < 256 implies #[trigger] gf2::mat_mul(
                            rb,
                            self@,
                            256,
                        )[t] == lb[t] by {
                            assert(gf2::mat_mul(rb, self@, 256)[t] == gf2::row_combine(
                                rb[t],
                                self@,
                                256,
                            ));
                            assert(gf2::mat_mul(ra, self@, 256)[t] == gf2::row_combine(
                                ra[t],
                                self@,
                                256,
                            ));
                            if t == ri {
                                gf2::lemma_row_combine_linear(ra[ri], ra[ci], self@, 256);
                                assert(gf2::mat_mul(ra, self@, 256)[ci] == gf2::row_combine(
                                    ra[ci],
                                    self@,
                                    256,
                                ));
                            }
                        }
                        assert(gf2::mat_mul(rb, self@, 256) =~= lb);
                        assert forall|c: int, t: int|
                            0 <= c < col && 0 <= t < 256 implies #[trigger] lb[t][c] == (t
                            == c) by {
                            assert(la[t][c] == (t == c));
                            if t == ri {
                                assert(la[ci][c] == (ci == c));
                            }
                        }
                        assert(lb[ci][ci]);
                        assert(!lb[ri][ci]);
                    }
                }
            }
            proof {
                assert forall|c: int, t: int|
                    0 <= c < col + 1 && 0 <= t < 256 implies #[trigger] rows256_view(left@)[t][c]
                    == (t == c) by {}
            }
        }
        proof {
            let lv = rows256_view(left@);
            let rv = rows256_view(right@);
            assert forall|t: int| 0 <= t < 256 implies #[trigger] lv[t] == gf2::ident_mat(256)[
                t
            ] by {
                assert(lv[t] =~= gf2::unit_vec(256, t));
            }
            assert(lv =~= gf2::ident_mat(256));
        }
        let cand = Matrix256 { rows: right };
        proof {
            assert(cand@ =~= rows256_view(cand.rows@));
            assert(gf2::mat_mul(cand@, self@, 256) == gf2::ident_mat(256));
        }
        let p2 = self.mul(&cand);
        if words_vec_equal(&p2.rows, &idm.rows) {
            proof {
                assert(p2@ =~= idm@);
            }
            Some(cand)
        } else {
            proof {
                if gf2::mat_mul(self@, cand@, 256) == gf2::ident_mat(256) {
                    assert(p2@ =~= rows256_view(p2.rows@));
                    assert(idm@ =~= rows256_view(idm.rows@));
                    assert(rows256_view(p2.rows@) == rows256_view(idm.rows@));
                    assert forall|t: int| 0 <= t < 1024 implies #[trigger] p2.rows@[t]
                        == idm.rows@[t] by {
                        lemma_word_eq_from_view(p2.rows@, idm.rows@, t);
                    }
                    assert(p2.rows@ =~= idm.rows@);
                }
                gf2::lemma_one_sided_not_invertible(self@, cand@, 256);
            }
            None
        }
    }


    /// Decides invertibility: true exactly when a two-sided inverse
    /// exists.
    pub fn is_invertible(&self) -> (r: bool)
        requires
            self.wf(),
        ensures
            r == gf2::invertible(self@, 256),
    {
        match self.invert() {
            Some(inv) => {
                proof {
                    assert(gf2::wf_mat(inv@, 256, 256));
                    assert(gf2::invertible(self@, 256));
                }
                true
            },
            None => false,
        }
    }

    /// Applies the matrix to a 256-bit vector carried as 32 bytes, in
    /// little-endian byte-and-bit order.
    pub fn apply_to_bytes(&self, input: &Vec<u8>) -> (r: Vec<u8>)
        requires
            self.wf(),
            input@.len() == 32,
        ensures
            r@.len() == 32,
            gf2::byte_bits(r@) == gf2::mat_apply(self@, gf2::byte_bits(input@)),
    {
        let ghost in_bits = gf2::byte_bits(input@);
        let mut out: Vec<u8> = Vec::new();
        for i in 0..32usize
            invariant
                out@.len() == i,
                forall|t: int| 0 <= t < i ==> out@[t] == 0u8,
        {
            out.push(0);
        }
        proof {
            assert forall|t: int| 0 <= t < 256 implies !gf2::byte_bits(out@)[t] by {
                lemma_idx8(t);
                gf2::lemma_u8_bits_zero();
                assert(gf2::u8_bits(0)[t % 8] == gf2::zero_vec(8)[t % 8]);
            }
        }
        for i in 0..256usize
            invariant
                self.wf(),
                input@.len() == 32,
                in_bits == gf2::byte_bits(input@),
                out@.len() == 32,
                forall|t: int|
                    0 <= t < i ==> #[trigger] gf2::byte_bits(out@)[t] == gf2::dot(
                        self@[t],
                        in_bits,
                    ),
                forall|t: int| i <= t < 256 ==> !gf2::byte_bits(out@)[t],
        {
            let mut acc: bool = false;
            proof {
                assert(self@[i as int].take(0) =~= Seq::<bool>::empty());
                assert(in_bits.take(0) =~= Seq::<bool>::empty());
            }
            for j in 0..256usize
                invariant
                    self.wf(),
                    input@.len() == 32,
                    in_bits == gf2::byte_bits(input@),
                    i < 256,
                    acc == gf2::dot(self@[i as int].take(j as int), in_bits.take(j as int)),
            {
                proof {
                    gf2::lemma_dot_take_step(self@[i as int], in_bits, j as int);
                    lemma_idx8(j as int);
                }
                let rbit = self.bit(i, j);
                let ibit = (input[j / 8] >> ((j % 8) as u8)) & 1 == 1;
                proof {
                    assert(in_bits[j as int] == gf2::u8_bit(input@[j as int / 8], j as int % 8));
                }
                if rbit && ibit {
                    acc = !acc;
                }
            }
            proof {
                assert(self@[i as int].take(256) =~= self@[i as int]);
                assert(in_bits.take(256) =~= in_bits);
            }
            if acc {
                proof {
                    lemma_idx8(i as int);
                }
                let ghost out_snap = out@;
                let b = out[i / 8];
                out.set(i / 8, b | (1u8 << ((i % 8) as u8)));
                proof {
                    assert forall|t: int| 0 <= t < 256 implies #[trigger] gf2::byte_bits(out@)[t]
                        == (t == i as int || gf2::byte_bits(out_snap)[t]) by {
                        lemma_idx8(t);
                        if t / 8 == i as int / 8 {
                            gf2::lemma_u8_set_bit(b, (i % 8) as u8, (t % 8) as u8);
                            if t % 8 == i as int % 8 {
                                lemma_same_byte(t, i as int);
                            } else {
                                assert(t != i as int);
                            }
                        } else {
                            assert(out@[t / 8] == out_snap[t / 8]);
                            assert(t != i as int);
                        }
                    }
                }
            }
        }
        proof {
            assert(gf2::byte_bits(out@) =~= gf2::mat_apply(self@, in_bits));
        }
        out
    }

    /// Extracts one column as 32 bytes: bit `row % 8` of byte `row / 8` of
    /// the result is the entry at (row, col). Since applying the matrix to
    /// a unit vector yields the matching column, this is the image of the
    /// basis vector with bit `col` set.
    pub fn column_bytes(&self, col: usize) -> (r: Vec<u8>)
        requires
            self.wf(),
            col < 256,
        ensures
            r@.len() == 32,
            forall|row: int|
                0 <= row < 256 ==> #[trigger] gf2::byte_bits(r@)[row] == self@[row][col as int],
    {
        let mut out = crate::block::zero_bytes(32);
        proof {
            assert forall|t: int| 0 <= t < 256 implies !gf2::byte_bits(out@)[t] by {
                lemma_idx8(t);
                gf2::lemma_u8_bits_zero();
                assert(gf2::u8_bits(0)[t % 8] == gf2::zero_vec(8)[t % 8]);
            }
        }
        for row in 0..256usize
            invariant
                self.wf(),
                col < 256,
                out@.len() == 32,
                forall|t: int|
                    0 <= t < row ==> #[trigger] gf2::byte_bits(out@)[t] == self@[t][col as int],
                forall|t: int| row <= t < 256 ==> !gf2::byte_bits(out@)[t],
        {
            if self.bit(row, col) {
                proof {
                    lemma_idx8(row as int);
                }
                let ghost out_snap = out@;
                let b = out[row / 8];
                out.set(row / 8, b | (1u8 << ((row % 8) as u8)));
                proof {
                    assert forall|t: int| 0 <= t < 256 implies #[trigger] gf2::byte_bits(out@)[t]
                        == (t == row as int || gf2::byte_bits(out_snap)[t]) by {
                        lemma_idx8(t);
                        if t / 8 == row as int / 8 {
                            gf2::lemma_u8_set_bit(b, (row % 8) as u8, (t % 8) as u8);
                            if t % 8 == row as int % 8 {
                                lemma_same_byte(t, row as int);
                            } else {
                                assert(t != row as int);
                            }
                        } else {
                            assert(out@[t / 8] == out_snap[t / 8]);
                            assert(t != row as int);
                        }
                    }
                }
            }
        }
        out
    }

    /// Precomputes the map `v -> M * (v at byte position i)` for every byte
    /// value v: entry v of the result is the matrix applied to the 32-byte
    /// vector whose byte `byte_index` is v and whose other bytes are zero.
    pub fn submatrix_byte_map(&self, byte_index: usize) -> (r: Vec<Vec<u8>>)
        requires
            self.wf(),
            byte_index < 32,
        ensures
            r@.len() == 256,
            forall|v: int| 0 <= v < 256 ==> (#[trigger] r@[v])@.len() == 32,
            forall|v: int|
                0 <= v < 256 ==> gf2::byte_bits((#[trigger] r@[v])@) == gf2::mat_apply(
                    self@,
                    gf2::byte_bits(byte_at(byte_index as int, v as u8)),
                ),
    {
        let ghost bi = byte_index as int;
        let mut basis: Vec<Vec<u8>> = Vec::new();
        for b in 0..8usize
            invariant
                self.wf(),
                byte_index < 32,
                bi == byte_index as int,
                basis@.len() == b,
                forall|t: int|
                    0 <= t < b ==> (#[trigger] basis@[t])@.len() == 32 && gf2::byte_bits(
                        basis@[t]@,
                    ) == gf2::mat_apply(self@, gf2::byte_bits(byte_at(bi, 1u8 << (t as u8)))),
        {
            let col = 8 * byte_index + b;
            let outb = self.column_bytes(col);
            proof {
                let ghost unit = gf2::byte_bits(byte_at(bi, 1u8 << (b as u8)));
                assert(col as int / 8 == bi && col as int % 8 == b as int) by (nonlinear_arith)
                    requires
                        col as int == 8 * bi + b as int,
                        0 <= bi,
                        0 <= b < 8,
                ;
                assert forall|k: int| 0 <= k < 256 implies #[trigger] unit[k] == gf2::unit_vec(
                    256,
                    col as int,
                )[k] by {
                    lemma_idx8(k);
                    if k / 8 == bi {
                        gf2::lemma_u8_bits_one_hot(b as u8);
                        assert(gf2::u8_bits(1u8 << (b as u8))[k % 8] == (k % 8 == b as int));
                        if k % 8 == b as int {
                            lemma_same_byte(k, col as int);
                        } else {
                            assert(k != col as int);
                        }
                    } else {
                        gf2::lemma_u8_bits_zero();
                        assert(gf2::u8_bits(0)[k % 8] == gf2::zero_vec(8)[k % 8]);
                        assert(k != col as int);
                    }
                }
                assert(unit =~= gf2::unit_vec(256, col as int));
                assert(gf2::wf_mat(self@, 256, 256));
                gf2::lemma_apply_unit(self@, 256, 256, col as int);
                assert forall|row: int| 0 <= row < 256 implies #[trigger] gf2::byte_bits(outb@)[row]
                    == gf2::mat_apply(self@, unit)[row] by {
                    assert(gf2::mat_apply(self@, gf2::unit_vec(256, col as int))[row] == self@[
                        row
                    ][col as int]);
                }
                assert(gf2::byte_bits(outb@) =~= gf2::mat_apply(self@, unit));
            }
            basis.push(outb);
        }
        let mut map: Vec<Vec<u8>> = Vec::new();
        for v in 0..256usize
            invariant
                self.wf(),
                byte_index < 32,
                bi == byte_index as int,
                basis@.len() == 8,
                forall|t: int|
                    0 <= t < 8 ==> (#[trigger] basis@[t])@.len() == 32 && gf2::byte_bits(
                        basis@[t]@,
                    ) == gf2::mat_apply(self@, gf2::byte_bits(byte_at(bi, 1u8 << (t as u8)))),
                map@.len() == v,
                forall|t: int| 0 <= t < v ==> (#[trigger] map@[t])@.len() == 32,
                forall|t: int|
                    0 <= t < v ==> gf2::byte_bits((#[trigger] map@[t])@) == gf2::mat_apply(
                        self@,
                        gf2::byte_bits(byte_at(bi, t as u8)),
                    ),
        {
            let x = v as u8;
            let mut acc = crate::block::zero_bytes(32);
            let ghost mut vb: u8 = 0;
            proof {
                gf2::lemma_u8_bits_zero();
                assert forall|t: int| 0 <= t < 8 implies !gf2::u8_bit(vb, t) by {
                    assert(gf2::u8_bits(0)[t] == gf2::zero_vec(8)[t]);
                }
                assert(byte_at(bi, vb) =~= acc@);
                assert forall|t: int| 0 <= t < 256 implies !gf2::byte_bits(acc@)[t] by {
                    lemma_idx8(t);
                    assert(gf2::u8_bits(0)[t % 8] == gf2::zero_vec(8)[t % 8]);
                }
                assert forall|t: int| 0 <= t < 256 implies #[trigger] gf2::mat_apply(
                    self@,
                    gf2::byte_bits(acc@),
                )[t] == false by {
                    assert(gf2::byte_bits(acc@) =~= gf2::zero_vec(256));
                    gf2::lemma_dot_zero_right(self@[t], gf2::byte_bits(acc@));
                }
                assert(gf2::byte_bits(acc@) =~= gf2::mat_apply(
                    self@,
                    gf2::byte_bits(byte_at(bi, vb)),
                ));
            }
            for b in 0..8u8
                invariant
                    self.wf(),
                    byte_index < 32,
                    bi == byte_index as int,
                    x == v as u8,
                    basis@.len() == 8,
                    forall|t: int|
                        0 <= t < 8 ==> (#[trigger] basis@[t])@.len() == 32 && gf2::byte_bits(
                            basis@[t]@,
                        ) == gf2::mat_apply(self@, gf2::byte_bits(byte_at(bi, 1u8 << (t as u8)))),
                    acc@.len() == 32,
                    forall|t: int| 0 <= t < b ==> gf2::u8_bit(vb, t) == gf2::u8_bit(x, t),
                    forall|t: int| b <= t < 8 ==> !gf2::u8_bit(vb, t),
                    gf2::byte_bits(acc@) == gf2::mat_apply(
                        self@,
                        gf2::byte_bits(byte_at(bi, vb)),
                    ),
            {
                if (x >> b) & 1 == 1 {
                    let ghost prev_vb = vb;
                    let ghost prev_acc = acc@;
                    crate::block::xor_in_place(&mut acc, &basis[b as usize]);
                    proof {
                        vb = prev_vb | (1u8 << b);
                        assert forall|t: int| 0 <= t < 8 implies gf2::u8_bit(vb, t) == (t
                            == b as int || gf2::u8_bit(prev_vb, t)) by {
                            gf2::lemma_u8_set_bit(prev_vb, b, t as u8);
                        }
                        // the new selected byte equals the XOR of the old one
                        // with the fresh basis bit
                        assert(!gf2::u8_bit(prev_vb, b as int));
                        assert(vb == prev_vb ^ (1u8 << b)) by (bit_vector)
                            requires
                                b < 8,
                                vb == prev_vb | (1u8 << b),
                                !((prev_vb >> b) & 1 == 1),
                        ;
                        assert(0u8 ^ 0u8 == 0u8) by (bit_vector);
                        assert(byte_at(bi, vb) =~= gf2::bytes_xor(
                            byte_at(bi, prev_vb),
                            byte_at(bi, 1u8 << b),
                        ));
                        gf2::lemma_byte_bits_xor(byte_at(bi, prev_vb), byte_at(bi, 1u8 << b));
                        gf2::lemma_apply_linear(
                            self@,
                            gf2::byte_bits(byte_at(bi, prev_vb)),
                            gf2::byte_bits(byte_at(bi, 1u8 << b)),
                        );
                        gf2::lemma_byte_bits_xor(prev_acc, basis@[b as int]@);
                        assert(gf2::byte_bits(acc@) == gf2::mat_apply(
                            self@,
                            gf2::byte_bits(byte_at(bi, vb)),
                        ));
                    }
                }
            }
            proof {
                assert forall|t: int| 0 <= t < 8 implies gf2::u8_bit(vb, t) == gf2::u8_bit(
                    x,
                    t,
                ) by {}
                gf2::lemma_u8_eq_from_bits(vb, x);
            }
            map.push(acc);
        }
        map
    }

    /// Draws a sparse-banded invertible matrix: invertible random blocks on
    /// the diagonal, random blocks on the first super-diagonal and at the
    /// wrap position (31, 0), and zero everywhere else; the whole matrix is
    /// rejection-sampled until it is invertible. The retry budget is capped,
    /// and exhausting it is surfaced as `MatrixNotInvertible`.
    pub fn random_sparse_unsplit(rng: &mut WbRng) -> (r: Result<Matrix256, WbError>)
        ensures
            match r {
                Ok(m) => {
                    &&& m.wf()
                    &&& sparse_banded(m@)
                    &&& gf2::invertible(m@, 256)
                    &&& forall|k: int|
                        0 <= k < 32 ==> gf2::invertible(#[trigger] block_spec(m@, k, k), 8)
                },
                Err(e) => e == WbError::MatrixNotInvertible,
            },
    {
        for _attempt in 0..1000usize {
            let mut mat = Matrix256::zero();
            proof {
                assert(sparse_banded(mat@));
            }
            for k in 0..32usize
                invariant
                    mat.wf(),
                    sparse_banded(mat@),
                    forall|t: int|
                        0 <= t < k ==> gf2::invertible(#[trigger] block_spec(mat@, t, t), 8),
            {
                let diag = match Matrix8::random_invertible(rng) {
                    Ok(d) => d,
                    Err(e) => {
                        return Err(e);
                    },
                };
                let ghost snap = mat@;
                mat.set_block(k, k, &diag);
                proof {
                    lemma_sparse_after_set_block(snap, mat@, k as int, k as int);
                    assert forall|t: int|
                        0 <= t < k + 1 implies gf2::invertible(
                        #[trigger] block_spec(mat@, t, t),
                        8,
                    ) by {
                        if t < k {
                            lemma_diag_block_unchanged(snap, mat@, t, k as int, k as int);
                        } else {
                            assert forall|i: int| 0 <= i < 8 implies #[trigger] block_spec(
                                mat@,
                                t,
                                t,
                            )[i] == diag@[i] by {
                                assert(block_spec(mat@, t, t)[i] =~= diag@[i]);
                            }
                            assert(block_spec(mat@, t, t) =~= diag@);
                        }
                    }
                }
            }
            for k in 0..31usize
                invariant
                    mat.wf(),
                    sparse_banded(mat@),
                    forall|t: int|
                        0 <= t < 32 ==> gf2::invertible(#[trigger] block_spec(mat@, t, t), 8),
            {
                let sup = Matrix8::random(rng);
                let ghost snap = mat@;
                mat.set_block(k, k + 1, &sup);
                proof {
                    lemma_sparse_after_set_block(snap, mat@, k as int, k as int + 1);
                    assert forall|t: int|
                        0 <= t < 32 implies gf2::invertible(
                        #[trigger] block_spec(mat@, t, t),
                        8,
                    ) by {
                        lemma_diag_block_unchanged(snap, mat@, t, k as int, k as int + 1);
                    }
                }
            }
            let wrap = Matrix8::random(rng);
            let ghost snap = mat@;
            mat.set_block(31, 0, &wrap);
            proof {
                lemma_sparse_after_set_block(snap, mat@, 31, 0);
                assert forall|t: int|
                    0 <= t < 32 implies gf2::invertible(#[trigger] block_spec(mat@, t, t), 8) by {
                    lemma_diag_block_unchanged(snap, mat@, t, 31, 0);
                }
            }
            if mat.is_invertible() {
                return Ok(mat);
            }
        }
        Err(WbError::MatrixNotInvertible)
    }

    /// Builds a matrix from its 256 columns, each carried as 32 bytes in
    /// little-endian byte-and-bit order.
    pub fn from_columns(cols: &Vec<Vec<u8>>) -> (r: Matrix256)
        requires
            cols@.len() == 256,
            forall|t: int| 0 <= t < 256 ==> (#[trigger] cols@[t])@.len() == 32,
        ensures
            r.wf(),
            forall|row: int, k: int|
                0 <= row < 256 && 0 <= k < 256 ==> #[trigger] r@[row][k] == gf2::byte_bits(
                    cols@[k]@,
                )[row],
    {
        let mut m = Matrix256::zero();
        for k in 0..256usize
            invariant
                m.wf(),
                cols@.len() == 256,
                forall|t: int| 0 <= t < 256 ==> (#[trigger] cols@[t])@.len() == 32,
                forall|row: int, t: int|
                    0 <= row < 256 && 0 <= t < k ==> #[trigger] m@[row][t] == gf2::byte_bits(
                        cols@[t]@,
                    )[row],
        {
            for row in 0..256usize
                invariant
                    m.wf(),
                    k < 256,
                    cols@.len() == 256,
                    forall|t: int| 0 <= t < 256 ==> (#[trigger] cols@[t])@.len() == 32,
                    forall|r2: int, t: int|
                        0 <= r2 < 256 && 0 <= t < k ==> #[trigger] m@[r2][t] == gf2::byte_bits(
                            cols@[t]@,
                        )[r2],
                    forall|r2: int|
                        0 <= r2 < row ==> #[trigger] m@[r2][k as int] == gf2::byte_bits(
                            cols@[k as int]@,
                        )[r2],
            {
                proof {
                    lemma_idx8(row as int);
                }
                let bv = (cols[k][row / 8] >> ((row % 8) as u8)) & 1 == 1;
                m.set_bit(row, k, bv);
            }
        }
        m
    }

    /// Serializes the matrix as 8192 bytes, row-major, in little-endian
    /// byte-and-bit order within each row: bit `c % 8` of byte
    /// `32r + c / 8` is the entry at (r, c).
    pub fn to_packed_bytes(&self) -> (r: Vec<u8>)
        requires
            self.wf(),
        ensures
            r@.len() == 8192,
            forall|row: int, col: int|
                0 <= row < 256 && 0 <= col < 256 ==> #[trigger] gf2::u8_bit(
                    r@[32 * row + col / 8],
                    col % 8,
                ) == self@[row][col],
    {
        let mut out: Vec<u8> = Vec::new();
        for w in 0..1024usize
            invariant
                self.wf(),
                out@.len() == 8 * w,
                forall|t: int, k: int, j: int|
                    0 <= t < w && 0 <= k < 8 && 0 <= j < 8 ==> #[trigger] gf2::u8_bit(
                        out@[8 * t + k],
                        j,
                    ) == gf2::u64_bit(self.rows@[t], 8 * k + j),
        {
            let word = self.rows[w];
            for k in 0..8usize
                invariant
                    self.wf(),
                    w < 1024,
                    word == self.rows@[w as int],
                    out@.len() == 8 * w + k,
                    forall|t: int, k2: int, j: int|
                        0 <= t < w && 0 <= k2 < 8 && 0 <= j < 8 ==> #[trigger] gf2::u8_bit(
                            out@[8 * t + k2],
                            j,
                        ) == gf2::u64_bit(self.rows@[t], 8 * k2 + j),
                    forall|k2: int, j: int|
                        0 <= k2 < k && 0 <= j < 8 ==> #[trigger] gf2::u8_bit(
                            out@[8 * (w as int) + k2],
                            j,
                        ) == gf2::u64_bit(word, 8 * k2 + j),
            {
                let byte = ((word >> ((8 * k) as u64)) & 0xff) as u8;
                proof {
                    assert forall|j: int| 0 <= j < 8 implies gf2::u8_bit(byte, j) == gf2::u64_bit(
                        word,
                        8 * (k as int) + j,
                    ) by {
                        gf2::lemma_u64_byte_extract(word, k as u64, j as u64);
                    }
                }
                out.push(byte);
            }
        }
        proof {
            assert forall|row: int, col: int| 0 <= row < 256 && 0 <= col < 256 implies #[trigger]
                gf2::u8_bit(out@[32 * row + col / 8], col % 8) == self@[row][col] by {
                lemma_col_split(col);
                let t = 4 * row + col / 64;
                let k = (col % 64) / 8;
                assert(8 * t + k == 32 * row + col / 8);
                assert(gf2::u8_bit(out@[8 * t + k], col % 8) == gf2::u64_bit(
                    self.rows@[t],
                    8 * k + col % 8,
                ));
                assert(8 * k + col % 8 == col % 64);
                assert(self@[row][col] == gf2::u64_bit(self.rows@[4 * row + col / 64], col % 64));
            }
        }
        out
    }

    /// Reads a matrix from 8192 packed bytes, row-major, in little-endian
    /// byte-and-bit order within each row.
    pub fn from_packed_bytes(bytes: &Vec<u8>) -> (r: Matrix256)
        requires
            bytes@.len() == 8192,
        ensures
            r.wf(),
            forall|row: int, col: int|
                0 <= row < 256 && 0 <= col < 256 ==> #[trigger] r@[row][col] == gf2::u8_bit(
                    bytes@[32 * row + col / 8],
                    col % 8,
                ),
    {
        let mut rows: Vec<u64> = Vec::new();
        for w in 0..1024usize
            invariant
                bytes@.len() == 8192,
                rows@.len() == w,
                forall|t: int, k: int, j: int|
                    0 <= t < w && 0 <= k < 8 && 0 <= j < 8 ==> #[trigger] gf2::u64_bit(
                        rows@[t],
                        8 * k + j,
                    ) == gf2::u8_bit(bytes@[8 * t + k], j),
        {
            let b0 = bytes[8 * w];
            let b1 = bytes[8 * w + 1];
            let b2 = bytes[8 * w + 2];
            let b3 = bytes[8 * w + 3];
            let b4 = bytes[8 * w + 4];
            let b5 = bytes[8 * w + 5];
            let b6 = bytes[8 * w + 6];
            let b7 = bytes[8 * w + 7];
            let word = (b0 as u64) | ((b1 as u64) << 8u64) | ((b2 as u64) << 16u64) | ((b3 as u64)
                << 24u64) | ((b4 as u64) << 32u64) | ((b5 as u64) << 40u64) | ((b6 as u64)
                << 48u64) | ((b7 as u64) << 56u64);
            proof {
                assert forall|k: int, j: int| 0 <= k < 8 && 0 <= j < 8 implies #[trigger]
                    gf2::u64_bit(word, 8 * k + j) == gf2::u8_bit(
                    bytes@[8 * (w as int) + k],
                    j,
                ) by {
                    gf2::lemma_u64_from_bytes_bit(
                        b0,
                        b1,
                        b2,
                        b3,
                        b4,
                        b5,
                        b6,
                        b7,
                        k as u64,
                        j as u64,
                    );
                }
            }
            rows.push(word);
        }
        let r = Matrix256 { rows };
        proof {
            assert forall|row: int, col: int| 0 <= row < 256 && 0 <= col < 256 implies #[trigger]
                r@[row][col] == gf2::u8_bit(bytes@[32 * row + col / 8], col % 8) by {
                lemma_col_split(col);
                let t = 4 * row + col / 64;
                let k = (col % 64) / 8;
                assert(r@[row][col] == gf2::u64_bit(r.rows@[t], col % 64));
                assert(8 * k + col % 8 == col % 64);
                assert(gf2::u64_bit(r.rows@[t], 8 * k + col % 8) == gf2::u8_bit(
                    bytes@[8 * t + k],
                    col % 8,
                ));
                assert(8 * t + k == 32 * row + col / 8);
            }
        }
        r
    }

    /// Applies the matrix to a 32-byte vector in place.
    pub fn apply_in_place(&self, value: &mut Vec<u8>)
        requires
            self.wf(),
            old(value)@.len() == 32,
        ensures
            final(value)@.len() == 32,
            gf2::byte_bits(final(value)@) == gf2::mat_apply(self@, gf2::byte_bits(old(value)@)),
    {
        let r = self.apply_to_bytes(value);
        *value = r;
    }
}

/// The 128 bits of one byte-packed row; byte `base + b` holds bits
/// `8b..8b+8`.
pub open spec fn packed_row_bits128(bytes: Seq<u8>, base: int) -> Seq<bool> {
    Seq::new(128, |j: int| gf2::u8_bit(bytes[base + j / 8], j % 8))
}

/// Bounds of the byte index and bit offset of a position in a 16-byte
/// vector.
proof fn lemma_idx128(c: int)
    requires
        0 <= c < 128,
    ensures
        0 <= c / 8 < 16,
        0 <= c % 8 < 8,
        c == 8 * (c / 8) + c % 8,
{
    assert(0 <= c / 8 < 16 && 0 <= c % 8 < 8 && c == 8 * (c / 8) + c % 8) by (nonlinear_arith)
        requires
            0 <= c < 128,
    ;
}

/// 128x128 binary matrix over GF(2), row-major, each row packed into 16
/// bytes; bit j of row-byte `16r + c / 8` is the entry at (r, c). It
/// reifies linear maps on a single 16-byte AES state.
#[derive(Clone, Debug, PartialEq, Eq)]
pub struct Matrix128 {
    rows: Vec<u8>,
}

impl View for Matrix128 {
    type V = Seq<Seq<bool>>;

    closed spec fn view(&self) -> Seq<Seq<bool>> {
        Seq::new(128, |i: int| packed_row_bits128(self.rows@, 16 * i))
    }
}

impl Matrix128 {
    /// The representation holds exactly 128 rows of 16 packed bytes.
    pub closed spec fn wf(&self) -> bool {
        self.rows@.len() == 2048
    }

    /// Builds a matrix from its 128 columns, each carried as 16 bytes in
    /// little-endian byte-and-bit order.
    pub fn from_columns(cols: &Vec<Vec<u8>>) -> (r: Matrix128)
        requires
            cols@.len() == 128,
            forall|t: int| 0 <= t < 128 ==> (#[trigger] cols@[t])@.len() == 16,
        ensures
            r.wf(),
            forall|row: int, k: int|
                0 <= row < 128 && 0 <= k < 128 ==> #[trigger] r@[row][k] == gf2::byte_bits(
                    cols@[k]@,
                )[row],
    {
        let mut rows: Vec<u8> = Vec::new();
        for i in 0..128usize
            invariant
                cols@.len() == 128,
                forall|t: int| 0 <= t < 128 ==> (#[trigger] cols@[t])@.len() == 16,
                rows@.len() == 16 * i,
                forall|r2: int, b: int, j: int|
                    0 <= r2 < i && 0 <= b < 16 && 0 <= j < 8 ==> #[trigger] gf2::u8_bit(
                        rows@[16 * r2 + b],
                        j,
                    ) == gf2::byte_bits(cols@[8 * b + j]@)[r2],
        {
            for b in 0..16usize
                invariant
                    cols@.len() == 128,
                    forall|t: int| 0 <= t < 128 ==> (#[trigger] cols@[t])@.len() == 16,
                    i < 128,
                    rows@.len() == 16 * i + b,
                    forall|r2: int, b2: int, j: int|
                        0 <= r2 < i && 0 <= b2 < 16 && 0 <= j < 8 ==> #[trigger] gf2::u8_bit(
                            rows@[16 * r2 + b2],
                            j,
                        ) == gf2::byte_bits(cols@[8 * b2 + j]@)[r2],
                    forall|b2: int, j: int|
                        0 <= b2 < b && 0 <= j < 8 ==> #[trigger] gf2::u8_bit(
                            rows@[16 * (i as int) + b2],
                            j,
                        ) == gf2::byte_bits(cols@[8 * b2 + j]@)[i as int],
            {
                let mut byte: u8 = 0;
                proof {
                    assert forall|t: int| 0 <= t < 8 implies !gf2::u8_bit(byte, t) by {
                        gf2::lemma_u8_bits_zero();
                        assert(gf2::u8_bits(0)[t] == gf2::zero_vec(8)[t]);
                    }
                    lemma_idx128(i as int);
                }
                for j in 0..8u8
                    invariant
                        cols@.len() == 128,
                        forall|t: int| 0 <= t < 128 ==> (#[trigger] cols@[t])@.len() == 16,
                        i < 128,
                        b < 16,
                        forall|t: int|
                            0 <= t < j ==> #[trigger] gf2::u8_bit(byte, t) == gf2::byte_bits(
                                cols@[8 * (b as int) + t]@,
                            )[i as int],
                        forall|t: int| j <= t < 8 ==> !gf2::u8_bit(byte, t),
                {
                    let c = 8 * b + (j as usize);
                    proof {
                        lemma_idx128(i as int);
                        assert(gf2::byte_bits(cols@[c as int]@)[i as int] == gf2::u8_bit(
                            cols@[c as int]@[i as int / 8],
                            i as int % 8,
                        ));
                    }
                    let bit = (cols[c][i / 8] >> ((i % 8) as u8)) & 1 == 1;
                    if bit {
                        let ghost prev = byte;
                        byte = byte | (1u8 << j);
                        proof {
                            assert forall|t: int| 0 <= t < 8 implies gf2::u8_bit(byte, t) == (t
                                == j as int || gf2::u8_bit(prev, t)) by {
                                gf2::lemma_u8_set_bit(prev, j, t as u8);
                            }
                        }
                    }
                }
                rows.push(byte);
            }
        }
        let r = Matrix128 { rows };
        proof {
            assert forall|row: int, k: int|
                0 <= row < 128 && 0 <= k < 128 implies #[trigger] r@[row][k] == gf2::byte_bits(
                cols@[k]@,
            )[row] by {
                lemma_idx128(k);
                assert(r@[row][k] == gf2::u8_bit(r.rows@[16 * row + k / 8], k % 8));
                assert(gf2::u8_bit(rows@[16 * row + k / 8], k % 8) == gf2::byte_bits(
                    cols@[8 * (k / 8) + k % 8]@,
                )[row]);
            }
        }
        r
    }

    /// Applies the matrix to a 128-bit vector carried as 16 bytes, in
    /// little-endian byte-and-bit order.
    pub fn apply_to_bytes(&self, input: &Vec<u8>) -> (r: Vec<u8>)
        requires
            self.wf(),
            input@.len() == 16,
        ensures
            r@.len() == 16,
            gf2::byte_bits(r@) == gf2::mat_apply(self@, gf2::byte_bits(input@)),
    {
        let ghost in_bits = gf2::byte_bits(input@);
        let mut out: Vec<u8> = crate::block::zero_bytes(16);
        proof {
            assert forall|t: int| 0 <= t < 128 implies !gf2::byte_bits(out@)[t] by {
                lemma_idx128(t);
                gf2::lemma_u8_bits_zero();
                assert(gf2::u8_bits(0)[t % 8] == gf2::zero_vec(8)[t % 8]);
            }
        }
        for i in 0..128usize
            invariant
                self.wf(),
                input@.len() == 16,
                in_bits == gf2::byte_bits(input@),
                out@.len() == 16,
                forall|t: int|
                    0 <= t < i ==> #[trigger] gf2::byte_bits(out@)[t] == gf2::dot(
                        self@[t],
                        in_bits,
                    ),
                forall|t: int| i <= t < 128 ==> !gf2::byte_bits(out@)[t],
        {
            let mut acc: bool = false;
            proof {
                assert(self@[i as int].take(0) =~= Seq::<bool>::empty());
                assert(in_bits.take(0) =~= Seq::<bool>::empty());
            }
            for j in 0..128usize
                invariant
                    self.wf(),
                    input@.len() == 16,
                    in_bits == gf2::byte_bits(input@),
                    i < 128,
                    acc == gf2::dot(self@[i as int].take(j as int), in_bits.take(j as int)),
            {
                proof {
                    gf2::lemma_dot_take_step(self@[i as int], in_bits, j as int);
                    lemma_idx128(j as int);
                    assert(self@[i as int][j as int] == gf2::u8_bit(
                        self.rows@[16 * (i as int) + j as int / 8],
                        j as int % 8,
                    ));
                    assert(in_bits[j as int] == gf2::u8_bit(input@[j as int / 8], j as int % 8));
                }
                let rbit = (self.rows[16 * i + j / 8] >> ((j % 8) as u8)) & 1 == 1;
                let ibit = (input[j / 8] >> ((j % 8) as u8)) & 1 == 1;
                if rbit && ibit {
                    acc = !acc;
                }
            }
            proof {
                assert(self@[i as int].take(128) =~= self@[i as int]);
                assert(in_bits.take(128) =~= in_bits);
            }
            if acc {
                proof {
                    lemma_idx128(i as int);
                }
                let ghost out_snap = out@;
                let b = out[i / 8];
                out.set(i / 8, b | (1u8 << ((i % 8) as u8)));
                proof {
                    assert forall|t: int| 0 <= t < 128 implies #[trigger] gf2::byte_bits(out@)[t]
                        == (t == i as int || gf2::byte_bits(out_snap)[t]) by {
                        lemma_idx128(t);
                        if t / 8 == i as int / 8 {
                            gf2::lemma_u8_set_bit(b, (i % 8) as u8, (t % 8) as u8);
                            if t % 8 == i as int % 8 {
                                lemma_idx128(i as int);
                                assert(t == i as int);
                            } else {
                                assert(t != i as int);
                            }
                        } else {
                            assert(out@[t / 8] == out_snap[t / 8]);
                            assert(t != i as int);
                        }
                    }
                }
            }
        }
        proof {
            assert(gf2::byte_bits(out@) =~= gf2::mat_apply(self@, in_bits));
        }
        out
    }
}

} // verus!
