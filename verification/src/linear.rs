//! AES linear-layer matrices.
//!
//! ShiftRows and MixColumns are GF(2)-linear on the 16-byte state, so
//! `ShiftRows` and `MixColumns ∘ ShiftRows` are reified as bit matrices by
//! computing their action on every basis vector and storing the images as
//! columns. The 256-bit variants act block-diagonally on a 32-byte doubled
//! state, one AES state per half.

use vstd::prelude::*;

use crate::gf2;
use crate::matrix::{byte_at, Matrix128, Matrix256};
use crate::round::{mix_col_spec, mix_columns, mix_columns_spec, shift_rows, shift_rows_spec, xtime_spec};

verus! {

/// The 32-byte vector with exactly bit k set.
pub open spec fn unit_bytes32(k: int) -> Seq<u8> {
    byte_at(k / 8, 1u8 << ((k % 8) as u8))
}

/// The 16-byte vector with exactly bit k set.
pub open spec fn unit_bytes16(k: int) -> Seq<u8> {
    Seq::new(
        16,
        |t: int|
            if t == k / 8 {
                1u8 << ((k % 8) as u8)
            } else {
                0u8
            },
    )
}

/// ShiftRows followed by MixColumns on one 16-byte state.
pub open spec fn mc_sr_spec(x: Seq<u8>) -> Seq<u8> {
    mix_columns_spec(shift_rows_spec(x))
}

/// ShiftRows followed by MixColumns on each half of a 32-byte doubled
/// state.
pub open spec fn mc_sr_double_spec(x: Seq<u8>) -> Seq<u8> {
    mc_sr_spec(x.subrange(0, 16)) + mc_sr_spec(x.subrange(16, 32))
}

/// ShiftRows alone on each half of a 32-byte doubled state.
pub open spec fn sr_double_spec(x: Seq<u8>) -> Seq<u8> {
    shift_rows_spec(x.subrange(0, 16)) + shift_rows_spec(x.subrange(16, 32))
}

/// The all-zero 32-byte vector.
pub open spec fn zero32() -> Seq<u8> {
    Seq::new(32, |t: int| 0u8)
}

/// Doubling in GF(2^8) is linear over XOR.
proof fn lemma_xtime_linear(p: u8, q: u8)
    ensures
        xtime_spec(p ^ q) == xtime_spec(p) ^ xtime_spec(q),
{
    assert((if ((p ^ q) & 0x80) != 0 {
        ((p ^ q) << 1) ^ 0x1b
    } else {
        (p ^ q) << 1
    }) == ((if (p & 0x80) != 0 {
        (p << 1) ^ 0x1b
    } else {
        p << 1
    }) ^ (if (q & 0x80) != 0 {
        (q << 1) ^ 0x1b
    } else {
        q << 1
    }))) by (bit_vector);
}

/// Doubling maps zero to zero, and XOR with zero is the identity.
proof fn lemma_xtime_zero()
    ensures
        xtime_spec(0) == 0,
        forall|x: u8| #![trigger (x ^ 0)] x ^ 0 == x && 0 ^ x == x,
{
    assert((0u8 << 1) == 0 && (0u8 & 0x80) == 0) by (bit_vector);
    assert forall|x: u8| #![trigger (x ^ 0)] x ^ 0 == x && 0 ^ x == x by {
        gf2::lemma_u8_xor_zero(x);
    }
}

/// One mixed column is linear over XOR in its four input bytes.
proof fn lemma_mix_col_linear(
    a0: u8,
    a1: u8,
    a2: u8,
    a3: u8,
    b0: u8,
    b1: u8,
    b2: u8,
    b3: u8,
    r: int,
)
    requires
        0 <= r < 4,
    ensures
        mix_col_spec(a0 ^ b0, a1 ^ b1, a2 ^ b2, a3 ^ b3, r) == mix_col_spec(a0, a1, a2, a3, r)
            ^ mix_col_spec(b0, b1, b2, b3, r),
{
    let xa0 = xtime_spec(a0);
    let xa1 = xtime_spec(a1);
    let xa2 = xtime_spec(a2);
    let xa3 = xtime_spec(a3);
    let xb0 = xtime_spec(b0);
    let xb1 = xtime_spec(b1);
    let xb2 = xtime_spec(b2);
    let xb3 = xtime_spec(b3);
    lemma_xtime_linear(a0, b0);
    lemma_xtime_linear(a1, b1);
    lemma_xtime_linear(a2, b2);
    lemma_xtime_linear(a3, b3);
    if r == 0 {
        assert((xa0 ^ xb0) ^ (((xa1 ^ xb1) ^ (a1 ^ b1))) ^ (a2 ^ b2) ^ (a3 ^ b3) == (xa0 ^ (xa1
            ^ a1) ^ a2 ^ a3) ^ (xb0 ^ (xb1 ^ b1) ^ b2 ^ b3)) by (bit_vector);
    } else if r == 1 {
        assert((a0 ^ b0) ^ (xa1 ^ xb1) ^ (((xa2 ^ xb2) ^ (a2 ^ b2))) ^ (a3 ^ b3) == (a0 ^ xa1 ^ (
        xa2 ^ a2) ^ a3) ^ (b0 ^ xb1 ^ (xb2 ^ b2) ^ b3)) by (bit_vector);
    } else if r == 2 {
        assert((a0 ^ b0) ^ (a1 ^ b1) ^ (xa2 ^ xb2) ^ (((xa3 ^ xb3) ^ (a3 ^ b3))) == (a0 ^ a1 ^ xa2
            ^ (xa3 ^ a3)) ^ (b0 ^ b1 ^ xb2 ^ (xb3 ^ b3))) by (bit_vector);
    } else {
        assert((((xa0 ^ xb0) ^ (a0 ^ b0))) ^ (a1 ^ b1) ^ (a2 ^ b2) ^ (xa3 ^ xb3) == ((xa0 ^ a0)
            ^ a1 ^ a2 ^ xa3) ^ ((xb0 ^ b0) ^ b1 ^ b2 ^ xb3)) by (bit_vector);
    }
}

/// ShiftRows is linear over XOR.
proof fn lemma_shift_rows_linear(a: Seq<u8>, b: Seq<u8>)
    requires
        a.len() == 16,
        b.len() == 16,
    ensures
        shift_rows_spec(gf2::bytes_xor(a, b)) == gf2::bytes_xor(
            shift_rows_spec(a),
            shift_rows_spec(b),
        ),
{
    assert(shift_rows_spec(gf2::bytes_xor(a, b)) =~= gf2::bytes_xor(
        shift_rows_spec(a),
        shift_rows_spec(b),
    ));
}

/// MixColumns is linear over XOR.
proof fn lemma_mix_columns_linear(a: Seq<u8>, b: Seq<u8>)
    requires
        a.len() == 16,
        b.len() == 16,
    ensures
        mix_columns_spec(gf2::bytes_xor(a, b)) == gf2::bytes_xor(
            mix_columns_spec(a),
            mix_columns_spec(b),
        ),
{
    assert forall|i: int| 0 <= i < 16 implies #[trigger] mix_columns_spec(gf2::bytes_xor(a, b))[i]
        == gf2::bytes_xor(mix_columns_spec(a), mix_columns_spec(b))[i] by {
        let c = 4 * (i / 4);
        assert(0 <= i / 4 < 4 && 0 <= i % 4 < 4 && 0 <= c && c + 3 < 16) by (nonlinear_arith)
            requires
                0 <= i < 16,
                c == 4 * (i / 4),
        ;
        lemma_mix_col_linear(a[c], a[c + 1], a[c + 2], a[c + 3], b[c], b[c + 1], b[c + 2], b[c + 3], i % 4);
    }
    assert(mix_columns_spec(gf2::bytes_xor(a, b)) =~= gf2::bytes_xor(
        mix_columns_spec(a),
        mix_columns_spec(b),
    ));
}

/// The doubled linear layer is linear over XOR.
proof fn lemma_mc_sr_double_linear(a: Seq<u8>, b: Seq<u8>)
    requires
        a.len() == 32,
        b.len() == 32,
    ensures
        mc_sr_double_spec(gf2::bytes_xor(a, b)) == gf2::bytes_xor(
            mc_sr_double_spec(a),
            mc_sr_double_spec(b),
        ),
{
    let x = gf2::bytes_xor(a, b);
    assert(x.subrange(0, 16) =~= gf2::bytes_xor(a.subrange(0, 16), b.subrange(0, 16)));
    assert(x.subrange(16, 32) =~= gf2::bytes_xor(a.subrange(16, 32), b.subrange(16, 32)));
    lemma_shift_rows_linear(a.subrange(0, 16), b.subrange(0, 16));
    lemma_mix_columns_linear(shift_rows_spec(a.subrange(0, 16)), shift_rows_spec(b.subrange(0, 16)));
    lemma_shift_rows_linear(a.subrange(16, 32), b.subrange(16, 32));
    lemma_mix_columns_linear(
        shift_rows_spec(a.subrange(16, 32)),
        shift_rows_spec(b.subrange(16, 32)),
    );
    assert(mc_sr_double_spec(x) =~= gf2::bytes_xor(mc_sr_double_spec(a), mc_sr_double_spec(b)));
}

/// The doubled ShiftRows layer is linear over XOR.
proof fn lemma_sr_double_linear(a: Seq<u8>, b: Seq<u8>)
    requires
        a.len() == 32,
        b.len() == 32,
    ensures
        sr_double_spec(gf2::bytes_xor(a, b)) == gf2::bytes_xor(
            sr_double_spec(a),
            sr_double_spec(b),
        ),
{
    let x = gf2::bytes_xor(a, b);
    assert(x.subrange(0, 16) =~= gf2::bytes_xor(a.subrange(0, 16), b.subrange(0, 16)));
    assert(x.subrange(16, 32) =~= gf2::bytes_xor(a.subrange(16, 32), b.subrange(16, 32)));
    lemma_shift_rows_linear(a.subrange(0, 16), b.subrange(0, 16));
    lemma_shift_rows_linear(a.subrange(16, 32), b.subrange(16, 32));
    assert(sr_double_spec(x) =~= gf2::bytes_xor(sr_double_spec(a), sr_double_spec(b)));
}

/// The doubled linear layers map the zero vector to itself.
proof fn lemma_double_layers_zero()
    ensures
        mc_sr_double_spec(zero32()) == zero32(),
        sr_double_spec(zero32()) == zero32(),
{
    lemma_xtime_zero();
    let zh = zero32().subrange(0, 16);
    let zh2 = zero32().subrange(16, 32);
    assert(shift_rows_spec(zh) =~= zh);
    assert(shift_rows_spec(zh2) =~= zh);
    assert forall|i: int| 0 <= i < 16 implies #[trigger] mix_columns_spec(zh)[i] == 0u8 by {
        assert(mix_col_spec(0, 0, 0, 0, i % 4) == 0);
    }
    assert(mix_columns_spec(zh) =~= zh);
    assert(mc_sr_double_spec(zero32()) =~= zero32());
    assert(sr_double_spec(zero32()) =~= zero32());
}

/// The hypotheses under which a matrix computes a byte-level map: the map
/// is linear over XOR, sends zero to zero and 32 bytes to 32 bytes, and
/// the matrix columns are the images of the basis vectors under the map.
spec fn matrix_computes(m: Seq<Seq<bool>>, f: spec_fn(Seq<u8>) -> Seq<u8>) -> bool {
    &&& gf2::wf_mat(m, 256, 256)
    &&& forall|s: Seq<u8>| s.len() == 32 ==> (#[trigger] f(s)).len() == 32
    &&& forall|a: Seq<u8>, b: Seq<u8>|
        a.len() == 32 && b.len() == 32 ==> #[trigger] f(gf2::bytes_xor(a, b)) == gf2::bytes_xor(
            f(a),
            f(b),
        )
    &&& f(zero32()) == zero32()
    &&& forall|row: int, k: int|
        0 <= row < 256 && 0 <= k < 256 ==> #[trigger] m[row][k] == gf2::byte_bits(
            f(unit_bytes32(k)),
        )[row]
}

/// Positions in a 32-byte vector split into a byte index and a bit offset.
proof fn lemma_pos_split(t: int)
    requires
        0 <= t < 256,
    ensures
        0 <= t / 8 < 32,
        0 <= t % 8 < 8,
        t == 8 * (t / 8) + t % 8,
{
    assert(0 <= t / 8 < 32 && 0 <= t % 8 < 8 && t == 8 * (t / 8) + t % 8) by (nonlinear_arith)
        requires
            0 <= t < 256,
    ;
}

/// The matrix and the map agree on the zero vector.
proof fn lemma_apply_zero(m: Seq<Seq<bool>>, f: spec_fn(Seq<u8>) -> Seq<u8>)
    requires
        matrix_computes(m, f),
    ensures
        gf2::mat_apply(m, gf2::byte_bits(zero32())) == gf2::byte_bits(f(zero32())),
{
    assert forall|t: int| 0 <= t < 256 implies !gf2::byte_bits(zero32())[t] by {
        lemma_pos_split(t);
        gf2::lemma_u8_bits_zero();
        assert(gf2::u8_bits(0)[t % 8] == gf2::zero_vec(8)[t % 8]);
    }
    assert(gf2::byte_bits(zero32()) =~= gf2::zero_vec(256));
    assert forall|row: int| 0 <= row < 256 implies !gf2::mat_apply(m, gf2::zero_vec(256))[row] by {
        gf2::lemma_dot_zero_right(m[row], gf2::zero_vec(256));
    }
    assert(gf2::mat_apply(m, gf2::byte_bits(zero32())) =~= gf2::byte_bits(f(zero32())));
}

/// The matrix and the map agree on every one-hot byte vector.
proof fn lemma_apply_one_hot(m: Seq<Seq<bool>>, f: spec_fn(Seq<u8>) -> Seq<u8>, i: int, b: u8)
    requires
        matrix_computes(m, f),
        0 <= i < 32,
        b < 8,
    ensures
        gf2::mat_apply(m, gf2::byte_bits(byte_at(i, 1u8 << b))) == gf2::byte_bits(
            f(byte_at(i, 1u8 << b)),
        ),
{
    let k = 8 * i + b as int;
    assert(k / 8 == i && k % 8 == b as int) by (nonlinear_arith)
        requires
            k == 8 * i + b as int,
            0 <= i,
            0 <= b < 8,
    ;
    assert(unit_bytes32(k) == byte_at(i, 1u8 << b));
    assert forall|t: int| 0 <= t < 256 implies #[trigger] gf2::byte_bits(byte_at(i, 1u8 << b))[t]
        == gf2::unit_vec(256, k)[t] by {
        lemma_pos_split(t);
        if t / 8 == i {
            gf2::lemma_u8_bits_one_hot(b);
            assert(gf2::u8_bits(1u8 << b)[t % 8] == (t % 8 == b as int));
        } else {
            gf2::lemma_u8_bits_zero();
            assert(gf2::u8_bits(0)[t % 8] == gf2::zero_vec(8)[t % 8]);
            assert(t != k);
        }
    }
    assert(gf2::byte_bits(byte_at(i, 1u8 << b)) =~= gf2::unit_vec(256, k));
    gf2::lemma_apply_unit(m, 256, 256, k);
    assert forall|row: int| 0 <= row < 256 implies #[trigger] gf2::mat_apply(
        m,
        gf2::byte_bits(byte_at(i, 1u8 << b)),
    )[row] == gf2::byte_bits(f(byte_at(i, 1u8 << b)))[row] by {
        assert(gf2::mat_apply(m, gf2::unit_vec(256, k))[row] == m[row][k]);
        assert(m[row][k] == gf2::byte_bits(f(unit_bytes32(k)))[row]);
    }
    assert(gf2::mat_apply(m, gf2::byte_bits(byte_at(i, 1u8 << b))) =~= gf2::byte_bits(
        f(byte_at(i, 1u8 << b)),
    ));
}

/// The matrix and the map agree on every single-byte vector, by induction
/// on the bits of the byte.
proof fn lemma_apply_byte(m: Seq<Seq<bool>>, f: spec_fn(Seq<u8>) -> Seq<u8>, i: int, v: u8, b: u8)
    requires
        matrix_computes(m, f),
        0 <= i < 32,
        b <= 8,
        v >> b == 0,
    ensures
        gf2::mat_apply(m, gf2::byte_bits(byte_at(i, v))) == gf2::byte_bits(f(byte_at(i, v))),
    decreases b,
{
    if b == 0 {
        assert(v == 0) by (bit_vector)
            requires
                v >> b == 0,
                b == 0u8,
        ;
        assert(byte_at(i, v) =~= zero32());
        lemma_apply_zero(m, f);
    } else {
        let bb = (b - 1) as u8;
        if (v >> bb) & 1 == 1 {
            let low = v & !(1u8 << bb);
            assert(low >> bb == 0 && v == low ^ (1u8 << bb) && (low >> bb) & 1 != 1)
                by (bit_vector)
                requires
                    bb < 8,
                    b == bb + 1,
                    v >> b == 0,
                    (v >> bb) & 1 == 1,
                    low == v & !(1u8 << bb),
            ;
            lemma_apply_byte(m, f, i, low, bb);
            lemma_apply_one_hot(m, f, i, bb);
            assert(0u8 ^ 0u8 == 0) by (bit_vector);
            assert(byte_at(i, v) =~= gf2::bytes_xor(byte_at(i, low), byte_at(i, 1u8 << bb)));
            gf2::lemma_byte_bits_xor(byte_at(i, low), byte_at(i, 1u8 << bb));
            gf2::lemma_apply_linear(
                m,
                gf2::byte_bits(byte_at(i, low)),
                gf2::byte_bits(byte_at(i, 1u8 << bb)),
            );
            gf2::lemma_byte_bits_xor(f(byte_at(i, low)), f(byte_at(i, 1u8 << bb)));
            assert(f(byte_at(i, v)) == gf2::bytes_xor(f(byte_at(i, low)), f(byte_at(i, 1u8 << bb))));
            assert(gf2::mat_apply(m, gf2::byte_bits(byte_at(i, v))) =~= gf2::byte_bits(
                f(byte_at(i, v)),
            ));
        } else {
            assert(v >> bb == 0) by (bit_vector)
                requires
                    bb < 8,
                    b == bb + 1,
                    v >> b == 0,
                    !((v >> bb) & 1 == 1),
            ;
            lemma_apply_byte(m, f, i, v, bb);
        }
    }
}

/// The first p bytes of x, zero-extended to 32 bytes.
spec fn prefix_bytes(x: Seq<u8>, p: int) -> Seq<u8> {
    Seq::new(
        32,
        |t: int|
            if t < p {
                x[t]
            } else {
                0u8
            },
    )
}

/// The matrix and the map agree on every prefix of x, by induction on the
/// number of bytes taken.
proof fn lemma_apply_prefix(m: Seq<Seq<bool>>, f: spec_fn(Seq<u8>) -> Seq<u8>, x: Seq<u8>, p: int)
    requires
        matrix_computes(m, f),
        x.len() == 32,
        0 <= p <= 32,
    ensures
        gf2::mat_apply(m, gf2::byte_bits(prefix_bytes(x, p))) == gf2::byte_bits(
            f(prefix_bytes(x, p)),
        ),
    decreases p,
{
    if p == 0 {
        assert(prefix_bytes(x, 0) =~= zero32());
        lemma_apply_zero(m, f);
    } else {
        lemma_apply_prefix(m, f, x, p - 1);
        let v = x[p - 1];
        assert(v >> 8u8 == 0) by (bit_vector);
        lemma_apply_byte(m, f, p - 1, v, 8);
        assert forall|t: int| 0 <= t < 32 implies #[trigger] prefix_bytes(x, p)[t]
            == gf2::bytes_xor(prefix_bytes(x, p - 1), byte_at(p - 1, x[p - 1]))[t] by {
            gf2::lemma_u8_xor_zero(x[t]);
            assert(0u8 ^ 0u8 == 0) by (bit_vector);
        }
        assert(prefix_bytes(x, p) =~= gf2::bytes_xor(
            prefix_bytes(x, p - 1),
            byte_at(p - 1, x[p - 1]),
        ));
        gf2::lemma_byte_bits_xor(prefix_bytes(x, p - 1), byte_at(p - 1, x[p - 1]));
        gf2::lemma_apply_linear(
            m,
            gf2::byte_bits(prefix_bytes(x, p - 1)),
            gf2::byte_bits(byte_at(p - 1, x[p - 1])),
        );
        gf2::lemma_byte_bits_xor(f(prefix_bytes(x, p - 1)), f(byte_at(p - 1, x[p - 1])));
        assert(f(prefix_bytes(x, p)) == gf2::bytes_xor(
            f(prefix_bytes(x, p - 1)),
            f(byte_at(p - 1, x[p - 1])),
        ));
        assert(gf2::mat_apply(m, gf2::byte_bits(prefix_bytes(x, p))) =~= gf2::byte_bits(
            f(prefix_bytes(x, p)),
        ));
    }
}

/// A matrix whose columns are the basis images of the doubled
/// ShiftRows-then-MixColumns layer applies that layer to every 32-byte
/// vector, not only to the basis: applying `mc_sr_matrix_256` to x equals
/// MixColumns after ShiftRows on each 16-byte half of x.
pub proof fn lemma_mc_sr_matrix_applies(m: Seq<Seq<bool>>, x: Seq<u8>)
    requires
        gf2::wf_mat(m, 256, 256),
        forall|row: int, k: int|
            0 <= row < 256 && 0 <= k < 256 ==> #[trigger] m[row][k] == gf2::byte_bits(
                mc_sr_double_spec(unit_bytes32(k)),
            )[row],
        x.len() == 32,
    ensures
        gf2::mat_apply(m, gf2::byte_bits(x)) == gf2::byte_bits(mc_sr_double_spec(x)),
{
    let f = |s: Seq<u8>| mc_sr_double_spec(s);
    assert forall|a: Seq<u8>, b: Seq<u8>| a.len() == 32 && b.len() == 32 implies #[trigger] f(
        gf2::bytes_xor(a, b),
    ) == gf2::bytes_xor(f(a), f(b)) by {
        lemma_mc_sr_double_linear(a, b);
    }
    lemma_double_layers_zero();
    assert(matrix_computes(m, f));
    lemma_apply_prefix(m, f, x, 32);
    assert(prefix_bytes(x, 32) =~= x);
}

/// A matrix whose columns are the basis images of the doubled ShiftRows
/// layer applies that layer to every 32-byte vector: applying
/// `sr_matrix_256` to x equals ShiftRows on each 16-byte half of x.
pub proof fn lemma_sr_matrix_applies(m: Seq<Seq<bool>>, x: Seq<u8>)
    requires
        gf2::wf_mat(m, 256, 256),
        forall|row: int, k: int|
            0 <= row < 256 && 0 <= k < 256 ==> #[trigger] m[row][k] == gf2::byte_bits(
                sr_double_spec(unit_bytes32(k)),
            )[row],
        x.len() == 32,
    ensures
        gf2::mat_apply(m, gf2::byte_bits(x)) == gf2::byte_bits(sr_double_spec(x)),
{
    let f = |s: Seq<u8>| sr_double_spec(s);
    assert forall|a: Seq<u8>, b: Seq<u8>| a.len() == 32 && b.len() == 32 implies #[trigger] f(
        gf2::bytes_xor(a, b),
    ) == gf2::bytes_xor(f(a), f(b)) by {
        lemma_sr_double_linear(a, b);
    }
    lemma_double_layers_zero();
    assert(matrix_computes(m, f));
    lemma_apply_prefix(m, f, x, 32);
    assert(prefix_bytes(x, 32) =~= x);
}

/// Applies ShiftRows then MixColumns to one 16-byte state.
fn apply_mc_sr(state: &Vec<u8>) -> (r: Vec<u8>)
    requires
        state@.len() == 16,
    ensures
        r@.len() == 16,
        r@ == mc_sr_spec(state@),
{
    let mut s = crate::block::copy_bytes(state);
    shift_rows(&mut s);
    mix_columns(&mut s);
    s
}

/// Applies ShiftRows alone to one 16-byte state.
fn apply_sr(state: &Vec<u8>) -> (r: Vec<u8>)
    requires
        state@.len() == 16,
    ensures
        r@.len() == 16,
        r@ == shift_rows_spec(state@),
{
    let mut s = crate::block::copy_bytes(state);
    shift_rows(&mut s);
    s
}

/// The matrix for `MC ∘ SR` on two concatenated AES states: column k holds
/// the image of the k-th basis vector under ShiftRows-then-MixColumns
/// applied to each half.
pub fn mc_sr_matrix_256() -> (r: Matrix256)
    ensures
        r.wf(),
        forall|row: int, k: int|
            0 <= row < 256 && 0 <= k < 256 ==> #[trigger] r@[row][k] == gf2::byte_bits(
                mc_sr_double_spec(unit_bytes32(k)),
            )[row],
{
    let mut cols: Vec<Vec<u8>> = Vec::new();
    for k in 0..256usize
        invariant
            cols@.len() == k,
            forall|t: int|
                0 <= t < k ==> (#[trigger] cols@[t])@.len() == 32 && cols@[t]@
                    == mc_sr_double_spec(unit_bytes32(t)),
    {
        proof {
            assert(0 <= (k as int) / 8 < 32 && 0 <= (k as int) % 8 < 8) by (nonlinear_arith)
                requires
                    0 <= k < 256,
            ;
        }
        let mut e = crate::block::zero_bytes(32);
        e.set(k / 8, 1u8 << ((k % 8) as u8));
        proof {
            assert(e@ =~= unit_bytes32(k as int));
        }
        let h1 = crate::block::slice_range(&e, 0, 16);
        let h2 = crate::block::slice_range(&e, 16, 32);
        let mut fe = apply_mc_sr(&h1);
        let f2 = apply_mc_sr(&h2);
        crate::block::append_bytes(&mut fe, &f2);
        cols.push(fe);
    }
    Matrix256::from_columns(&cols)
}

/// The matrix for `SR` alone on two concatenated AES states, used by the
/// final round, which omits MixColumns.
pub fn sr_matrix_256() -> (r: Matrix256)
    ensures
        r.wf(),
        forall|row: int, k: int|
            0 <= row < 256 && 0 <= k < 256 ==> #[trigger] r@[row][k] == gf2::byte_bits(
                sr_double_spec(unit_bytes32(k)),
            )[row],
{
    let mut cols: Vec<Vec<u8>> = Vec::new();
    for k in 0..256usize
        invariant
            cols@.len() == k,
            forall|t: int|
                0 <= t < k ==> (#[trigger] cols@[t])@.len() == 32 && cols@[t]@ == sr_double_spec(
                    unit_bytes32(t),
                ),
    {
        proof {
            assert(0 <= (k as int) / 8 < 32 && 0 <= (k as int) % 8 < 8) by (nonlinear_arith)
                requires
                    0 <= k < 256,
            ;
        }
        let mut e = crate::block::zero_bytes(32);
        e.set(k / 8, 1u8 << ((k % 8) as u8));
        proof {
            assert(e@ =~= unit_bytes32(k as int));
        }
        let h1 = crate::block::slice_range(&e, 0, 16);
        let h2 = crate::block::slice_range(&e, 16, 32);
        let mut fe = apply_sr(&h1);
        let f2 = apply_sr(&h2);
        crate::block::append_bytes(&mut fe, &f2);
        cols.push(fe);
    }
    Matrix256::from_columns(&cols)
}

/// The matrix for `MC ∘ SR` on a single 128-bit AES state.
pub fn mc_sr_matrix_128() -> (r: Matrix128)
    ensures
        r.wf(),
        forall|row: int, k: int|
            0 <= row < 128 && 0 <= k < 128 ==> #[trigger] r@[row][k] == gf2::byte_bits(
                mc_sr_spec(unit_bytes16(k)),
            )[row],
{
    let mut cols: Vec<Vec<u8>> = Vec::new();
    for k in 0..128usize
        invariant
            cols@.len() == k,
            forall|t: int|
                0 <= t < k ==> (#[trigger] cols@[t])@.len() == 16 && cols@[t]@ == mc_sr_spec(
                    unit_bytes16(t),
                ),
    {
        proof {
            assert(0 <= (k as int) / 8 < 16 && 0 <= (k as int) % 8 < 8) by (nonlinear_arith)
                requires
                    0 <= k < 128,
            ;
        }
        let mut e = crate::block::zero_bytes(16);
        e.set(k / 8, 1u8 << ((k % 8) as u8));
        proof {
            assert(e@ =~= unit_bytes16(k as int));
        }
        let fe = apply_mc_sr(&e);
        cols.push(fe);
    }
    Matrix128::from_columns(&cols)
}

/// The matrix for `SR` alone on a single 128-bit AES state.
pub fn sr_matrix_128() -> (r: Matrix128)
    ensures
        r.wf(),
        forall|row: int, k: int|
            0 <= row < 128 && 0 <= k < 128 ==> #[trigger] r@[row][k] == gf2::byte_bits(
                shift_rows_spec(unit_bytes16(k)),
            )[row],
{
    let mut cols: Vec<Vec<u8>> = Vec::new();
    for k in 0..128usize
        invariant
            cols@.len() == k,
            forall|t: int|
                0 <= t < k ==> (#[trigger] cols@[t])@.len() == 16 && cols@[t]@ == shift_rows_spec(
                    unit_bytes16(t),
                ),
    {
        proof {
            assert(0 <= (k as int) / 8 < 16 && 0 <= (k as int) % 8 < 8) by (nonlinear_arith)
                requires
                    0 <= k < 128,
            ;
        }
        let mut e = crate::block::zero_bytes(16);
        e.set(k / 8, 1u8 << ((k % 8) as u8));
        proof {
            assert(e@ =~= unit_bytes16(k as int));
        }
        let fe = apply_sr(&e);
        cols.push(fe);
    }
    Matrix128::from_columns(&cols)
}

} // verus!
