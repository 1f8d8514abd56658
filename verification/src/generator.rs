//! Instance generator for the revisited white-box scheme.
//!
//! Generation folds each AES round, together with the affine encodings on
//! either side of it, into 32 lookup tables. The random draws — encodings,
//! bias shares and h-masks — pass through the opaque byte generator, and
//! everything computed from them is verified: `split_biases` proves that
//! the shares XOR to their target, `build_round_tables` proves the exact
//! construction formula for every table entry, and the proof functions
//! here state why the construction fits together: on a sparse-banded
//! encoding the two state bytes fed to a table reconstruct one byte of
//! the encoded state, the paired h-masks cancel over a full round, and
//! one round of lookups therefore computes the derived linear map applied
//! to the S-box outputs, masked only by the bias target.

use vstd::prelude::*;

use crate::affine::{affine256_apply_spec, Affine256};
use crate::block::{copy_bytes, xor_in_place, zero_bytes};
use crate::cipher::expand_key;
use crate::errors::WbError;
use crate::gf2;
use crate::instance::{ExternalEncodings, InstanceParams, WbInstance256};
use crate::key::Aes128Key;
use crate::linear::{mc_sr_matrix_256, sr_matrix_256};
use crate::matrix::{allowed_block, block_spec, byte_at, sparse_banded, Matrix256};
use crate::rng::WbRng;
use crate::sbox::{sbox, sbox_spec};
use crate::tables::{HTable, RoundTables, Table16x256};

verus! {

broadcast use crate::matrix::lemma_matrix256_shape, crate::matrix::lemma_matrix8_shape;

/// Configuration for the generator.
#[derive(Clone, Debug)]
pub struct GeneratorConfig {
    /// Whether to sample random external input/output encodings.
    pub external_encodings: bool,
}

impl Default for GeneratorConfig {
    /// External encodings are off by default.
    fn default() -> (r: Self)
        ensures
            !r.external_encodings,
    {
        GeneratorConfig { external_encodings: false }
    }
}

/// White-box instance generator holding a seeded byte generator.
pub struct Generator {
    /// The seeded byte generator that supplies all random draws.
    pub rng: WbRng,
    /// Generation options.
    pub config: GeneratorConfig,
}

/// The XOR of a sequence of 32-byte shares.
pub open spec fn xor_shares_spec(shares: Seq<Seq<u8>>) -> Seq<u8>
    decreases shares.len(),
{
    if shares.len() == 0 {
        Seq::new(32, |t: int| 0u8)
    } else {
        gf2::bytes_xor(xor_shares_spec(shares.drop_last()), shares.last())
    }
}

/// The views of a vector of byte vectors.
pub open spec fn views_of(v: Seq<Vec<u8>>) -> Seq<Seq<u8>> {
    Seq::new(v.len(), |i: int| v[i]@)
}

/// The S-box input of table i on the pair `(x, y)`: the two non-zero
/// blocks of row-block i of the incoming encoding applied to x and y,
/// XORed with byte i of its bias.
pub open spec fn round_z_spec(a_lin: Seq<Seq<bool>>, a_bias: Seq<u8>, i: int, x: u8, y: u8) -> u8 {
    gf2::u8_from_bits(
        gf2::vec_xor(
            gf2::vec_xor(
                gf2::mat_apply(block_spec(a_lin, i, i), gf2::u8_bits(x)),
                gf2::mat_apply(
                    block_spec(
                        a_lin,
                        i,
                        if i == 31 {
                            0int
                        } else {
                            i + 1
                        },
                    ),
                    gf2::u8_bits(y),
                ),
            ),
            gf2::u8_bits(a_bias[i]),
        ),
    )
}

/// The bits of the table entry at `(i, x, y)`: the derived linear map
/// applied to the S-box output placed at byte i, masked by the bias share
/// and the two h-masks.
pub open spec fn round_entry_bits_spec(
    a_lin: Seq<Seq<bool>>,
    a_bias: Seq<u8>,
    b_lin: Seq<Seq<bool>>,
    b_bias_i: Seq<u8>,
    h_x: Seq<u8>,
    h_y: Seq<u8>,
    i: int,
    x: u8,
    y: u8,
) -> Seq<bool> {
    let t = sbox_spec(round_z_spec(a_lin, a_bias, i, x, y));
    gf2::vec_xor(
        gf2::vec_xor(
            gf2::vec_xor(
                gf2::mat_apply(b_lin, gf2::byte_bits(byte_at(i, t))),
                gf2::byte_bits(b_bias_i),
            ),
            gf2::byte_bits(h_x),
        ),
        gf2::byte_bits(h_y),
    )
}

/// A dot product with an all-false left operand is false.
proof fn lemma_dot_zero_range(a: Seq<bool>, b: Seq<bool>)
    requires
        a.len() == b.len(),
        forall|c: int| 0 <= c < a.len() ==> !a[c],
    ensures
        !gf2::dot(a, b),
{
    assert(a =~= gf2::zero_vec(b.len()));
    gf2::lemma_dot_zero_left(b);
}

/// A dot product with a row that is false outside two 8-bit windows
/// reduces to the dot products over those windows.
proof fn lemma_dot_two_blocks(row: Seq<bool>, v: Seq<bool>, x1: int, x2: int)
    requires
        row.len() == 256,
        v.len() == 256,
        0 <= x1,
        x1 + 8 <= x2,
        x2 + 8 <= 256,
        forall|c: int|
            0 <= c < 256 && !(x1 <= c < x1 + 8) && !(x2 <= c < x2 + 8) ==> !(#[trigger] row[c]),
    ensures
        gf2::dot(row, v) == (gf2::dot(row.subrange(x1, x1 + 8), v.subrange(x1, x1 + 8)) != gf2::dot(
            row.subrange(x2, x2 + 8),
            v.subrange(x2, x2 + 8),
        )),
{
    gf2::lemma_dot_split(row, v, x1);
    lemma_dot_zero_range(row.take(x1), v.take(x1));
    let r1 = row.skip(x1);
    let v1 = v.skip(x1);
    gf2::lemma_dot_split(r1, v1, 8);
    assert(r1.take(8) =~= row.subrange(x1, x1 + 8));
    assert(v1.take(8) =~= v.subrange(x1, x1 + 8));
    let r2 = r1.skip(8);
    let v2 = v1.skip(8);
    let mid = x2 - x1 - 8;
    gf2::lemma_dot_split(r2, v2, mid);
    assert forall|c: int| 0 <= c < mid implies !(#[trigger] r2.take(mid)[c]) by {
        assert(r2.take(mid)[c] == row[x1 + 8 + c]);
    }
    lemma_dot_zero_range(r2.take(mid), v2.take(mid));
    let r3 = r2.skip(mid);
    let v3 = v2.skip(mid);
    gf2::lemma_dot_split(r3, v3, 8);
    assert(r3.take(8) =~= row.subrange(x2, x2 + 8));
    assert(v3.take(8) =~= v.subrange(x2, x2 + 8));
    assert forall|c: int| 0 <= c < r3.skip(8).len() implies !(#[trigger] r3.skip(8)[c]) by {
        assert(r3.skip(8)[c] == row[x2 + 8 + c]);
    }
    lemma_dot_zero_range(r3.skip(8), v3.skip(8));
}

/// On a sparse-banded encoding, the pair of state bytes at positions i and
/// i+1 (mod 32) reconstructs byte i of the affine image of the whole
/// 32-byte state: the decoded S-box input of table i equals byte i of the
/// encoding applied to the state.
pub proof fn lemma_sparse_z_decodes(a_lin: Seq<Seq<bool>>, a_bias: Seq<u8>, s: Seq<u8>, i: int)
    requires
        gf2::wf_mat(a_lin, 256, 256),
        sparse_banded(a_lin),
        a_bias.len() == 32,
        s.len() == 32,
        0 <= i < 32,
    ensures
        round_z_spec(
            a_lin,
            a_bias,
            i,
            s[i],
            s[if i == 31 {
                0int
            } else {
                i + 1
            }],
        ) == gf2::bytes_from_bits(affine256_apply_spec(a_lin, a_bias, s))[i],
{
    let ni = if i == 31 {
        0int
    } else {
        i + 1
    };
    let x = s[i];
    let y = s[ni];
    let bits = gf2::byte_bits(s);
    let bl = block_spec(a_lin, i, i);
    let br = block_spec(a_lin, i, ni);
    let full = affine256_apply_spec(a_lin, a_bias, s);
    let inner = gf2::vec_xor(
        gf2::vec_xor(gf2::mat_apply(bl, gf2::u8_bits(x)), gf2::mat_apply(br, gf2::u8_bits(y))),
        gf2::u8_bits(a_bias[i]),
    );
    assert forall|r: int| 0 <= r < 8 implies #[trigger] inner[r] == full.subrange(
        8 * i,
        8 * i + 8,
    )[r] by {
        let row = a_lin[8 * i + r];
        assert((8 * i + r) / 8 == i && (8 * i + r) % 8 == r) by (nonlinear_arith)
            requires
                0 <= i,
                0 <= r < 8,
        ;
        assert(gf2::byte_bits(a_bias)[8 * i + r] == gf2::u8_bit(a_bias[i], r));
        assert(bl[r] =~= row.subrange(8 * i, 8 * i + 8));
        assert forall|c: int| 0 <= c < 8 implies #[trigger] bits.subrange(8 * i, 8 * i + 8)[c]
            == gf2::u8_bits(x)[c] by {
            assert((8 * i + c) / 8 == i && (8 * i + c) % 8 == c) by (nonlinear_arith)
                requires
                    0 <= i,
                    0 <= c < 8,
            ;
        }
        assert(bits.subrange(8 * i, 8 * i + 8) =~= gf2::u8_bits(x));
        assert forall|c: int| 0 <= c < 8 implies #[trigger] bits.subrange(8 * ni, 8 * ni + 8)[c]
            == gf2::u8_bits(y)[c] by {
            assert((8 * ni + c) / 8 == ni && (8 * ni + c) % 8 == c) by (nonlinear_arith)
                requires
                    0 <= ni,
                    0 <= c < 8,
            ;
        }
        assert(bits.subrange(8 * ni, 8 * ni + 8) =~= gf2::u8_bits(y));
        assert(br[r] =~= row.subrange(8 * ni, 8 * ni + 8));
        assert forall|c: int|
            0 <= c < 256 && !(8 * i <= c < 8 * i + 8) && !(8 * ni <= c < 8 * ni + 8) implies !(
        #[trigger] row[c]) by {
            assert(0 <= c / 8 < 32 && (c / 8 == i <==> 8 * i <= c < 8 * i + 8) && (c / 8 == ni
                <==> 8 * ni <= c < 8 * ni + 8)) by (nonlinear_arith)
                requires
                    0 <= c < 256,
                    0 <= i < 32,
                    0 <= ni < 32,
            ;
            assert(!allowed_block(i, c / 8));
            assert(!a_lin[8 * i + r][c]);
        }
        if i < 31 {
            lemma_dot_two_blocks(row, bits, 8 * i, 8 * ni);
        } else {
            lemma_dot_two_blocks(row, bits, 8 * ni, 8 * i);
        }
        assert(gf2::mat_apply(bl, gf2::u8_bits(x))[r] == gf2::dot(bl[r], gf2::u8_bits(x)));
        assert(gf2::mat_apply(br, gf2::u8_bits(y))[r] == gf2::dot(br[r], gf2::u8_bits(y)));
        assert(full[8 * i + r] == (gf2::dot(row, bits) != gf2::byte_bits(a_bias)[8 * i + r]));
    }
    assert(inner =~= full.subrange(8 * i, 8 * i + 8));
    assert(full.len() == 256);
    assert(gf2::bytes_from_bits(full)[i] == gf2::u8_from_bits(full.subrange(8 * i, 8 * i + 8)));
}

/// The h-masks cancel over one round: each mask value that table i XORs
/// in is XORed out again by its cyclic neighbour, so the 32 paired mask
/// contributions fold to zero, whatever the state and whatever the masks.
pub proof fn lemma_h_masks_cancel(z: Seq<Seq<bool>>, h: Seq<HTable>, s: Seq<u8>)
    requires
        h.len() == 32,
        forall|i: int| 0 <= i < 32 ==> (#[trigger] h[i]).wf(),
        s.len() == 32,
        z.len() == 32,
        forall|i: int| 0 <= i < 32 ==> #[trigger] z[i] == gf2::vec_xor(
            gf2::byte_bits(h[i].entry(s[i])),
            gf2::byte_bits(
                h[if i == 31 {
                    0int
                } else {
                    i + 1
                }].entry(
                    s[if i == 31 {
                        0int
                    } else {
                        i + 1
                    }],
                ),
            ),
        ),
    ensures
        gf2::xor_fold(z, 256) == gf2::zero_vec(256),
{
    let m = Seq::new(32, |i: int| gf2::byte_bits(h[i].entry(s[i])));
    assert forall|i: int| 0 <= i < m.len() implies (#[trigger] m[i]).len() == 256 by {
        h[i].lemma_entry_len(s[i]);
    }
    assert forall|i: int| 0 <= i < 32 implies #[trigger] z[i] == gf2::vec_xor(
        m[i],
        m[(i + 1) % (m.len() as int)],
    ) by {
        assert((i + 1) % 32int == (if i == 31 {
            0int
        } else {
            i + 1
        })) by (nonlinear_arith)
            requires
                0 <= i < 32,
        ;
    }
    gf2::lemma_cyclic_xor_cancels(z, m, 256);
}

/// The bit view of a byte-level XOR fold is the bit-level XOR fold of the
/// views.
proof fn lemma_shares_bits(bits: Seq<Seq<bool>>, shares: Seq<Seq<u8>>)
    requires
        bits.len() == shares.len(),
        forall|i: int| 0 <= i < shares.len() ==> (#[trigger] shares[i]).len() == 32,
        forall|i: int| 0 <= i < bits.len() ==> #[trigger] bits[i] == gf2::byte_bits(shares[i]),
    ensures
        gf2::byte_bits(xor_shares_spec(shares)) == gf2::xor_fold(bits, 256),
    decreases shares.len(),
{
    if shares.len() == 0 {
        assert forall|t: int| 0 <= t < 256 implies !gf2::byte_bits(xor_shares_spec(shares))[t] by {
            assert(0 <= t / 8 < 32 && 0 <= t % 8 < 8) by (nonlinear_arith)
                requires
                    0 <= t < 256,
            ;
            gf2::lemma_u8_bits_zero();
            assert(gf2::u8_bits(0)[t % 8] == gf2::zero_vec(8)[t % 8]);
        }
        assert(gf2::byte_bits(xor_shares_spec(shares)) =~= gf2::xor_fold(bits, 256));
    } else {
        lemma_shares_bits(bits.drop_last(), shares.drop_last());
        assert(bits.last() == gf2::byte_bits(shares.last()));
        assert(xor_shares_spec(shares.drop_last()).len() == 32) by {
            lemma_xor_shares_len(shares.drop_last());
        }
        gf2::lemma_byte_bits_xor(xor_shares_spec(shares.drop_last()), shares.last());
    }
}

/// A byte-level XOR fold of 32-byte shares has 32 bytes.
proof fn lemma_xor_shares_len(shares: Seq<Seq<u8>>)
    ensures
        xor_shares_spec(shares).len() == 32,
    decreases shares.len(),
{
    if shares.len() > 0 {
        lemma_xor_shares_len(shares.drop_last());
    }
}

/// The byte positions fed to table i of a round: its own position and its
/// cyclic successor.
pub open spec fn succ32(i: int) -> int {
    if i == 31 {
        0int
    } else {
        i + 1
    }
}

/// The vector of S-box outputs a round produces from state s under the
/// incoming encoding.
pub open spec fn sbox_state_spec(a_lin: Seq<Seq<bool>>, a_bias: Seq<u8>, s: Seq<u8>) -> Seq<u8> {
    Seq::new(32, |i: int| sbox_spec(round_z_spec(a_lin, a_bias, i, s[i], s[succ32(i)])))
}

/// Folding XOR over applications of one matrix equals applying the matrix
/// to the folded arguments.
proof fn lemma_fold_apply(applied: Seq<Seq<bool>>, m: Seq<Seq<bool>>, args: Seq<Seq<bool>>)
    requires
        gf2::wf_mat(m, 256, 256),
        applied.len() == args.len(),
        forall|i: int| 0 <= i < args.len() ==> (#[trigger] args[i]).len() == 256,
        forall|i: int| 0 <= i < applied.len() ==> #[trigger] applied[i] == gf2::mat_apply(
            m,
            args[i],
        ),
    ensures
        gf2::xor_fold(applied, 256) == gf2::mat_apply(m, gf2::xor_fold(args, 256)),
    decreases args.len(),
{
    if args.len() == 0 {
        assert forall|row: int| 0 <= row < 256 implies !gf2::mat_apply(
            m,
            gf2::zero_vec(256),
        )[row] by {
            gf2::lemma_dot_zero_right(m[row], gf2::zero_vec(256));
        }
        assert(gf2::xor_fold(applied, 256) =~= gf2::mat_apply(m, gf2::xor_fold(args, 256)));
    } else {
        lemma_fold_apply(applied.drop_last(), m, args.drop_last());
        assert(applied.last() == gf2::mat_apply(m, args.last()));
        gf2::lemma_xor_fold_len(args.drop_last(), 256);
        gf2::lemma_apply_linear(m, gf2::xor_fold(args.drop_last(), 256), args.last());
    }
}

/// The S-box outputs placed at their byte positions XOR together to the
/// vector of those outputs.
proof fn lemma_byte_at_fold(parts: Seq<Seq<u8>>, v: Seq<u8>, k: int)
    requires
        v.len() == 32,
        0 <= k <= 32,
        parts.len() == k,
        forall|i: int| 0 <= i < k ==> #[trigger] parts[i] == byte_at(i, v[i]),
    ensures
        xor_shares_spec(parts).len() == 32,
        forall|t: int|
            0 <= t < 32 ==> #[trigger] xor_shares_spec(parts)[t] == (if t < k {
                v[t]
            } else {
                0u8
            }),
    decreases k,
{
    lemma_xor_shares_len(parts);
    if k > 0 {
        lemma_byte_at_fold(parts.drop_last(), v, k - 1);
        assert(parts.last() == byte_at(k - 1, v[k - 1]));
        lemma_xor_shares_len(parts.drop_last());
        assert forall|t: int| 0 <= t < 32 implies #[trigger] xor_shares_spec(parts)[t] == (if t
            < k {
            v[t]
        } else {
            0u8
        }) by {
            gf2::lemma_u8_xor_zero(v[t]);
            assert(0u8 ^ 0u8 == 0) by (bit_vector);
        }
    }
}

/// The first n table contributions of a round are the XOR of the first n
/// entries.
proof fn lemma_round_xor_as_shares(rt: RoundTables, s: Seq<u8>, n: int, entries: Seq<Seq<u8>>)
    requires
        s.len() == 32,
        0 <= n <= 32,
        entries.len() == 32,
        forall|i: int| 0 <= i < 32 ==> #[trigger] entries[i] == rt.tables@[i].entry(
            s[i],
            s[succ32(i)],
        ),
    ensures
        crate::runtime::round_xor_spec(rt, s, n) == xor_shares_spec(entries.take(n)),
    decreases n,
{
    if n == 0 {
        assert(crate::runtime::round_xor_spec(rt, s, 0) =~= xor_shares_spec(entries.take(0)));
    } else {
        lemma_round_xor_as_shares(rt, s, n - 1, entries);
        assert(entries.take(n).drop_last() =~= entries.take(n - 1));
        assert(entries.take(n).last() == rt.tables@[n - 1].entry(s[n - 1], s[succ32(n - 1)]));
    }
}

/// The vector of S-box outputs is the S-box applied byte-wise to the
/// affine image of the state: a corollary of the sparse-banded decoding.
pub proof fn lemma_sbox_state_decodes(a_lin: Seq<Seq<bool>>, a_bias: Seq<u8>, s: Seq<u8>)
    requires
        gf2::wf_mat(a_lin, 256, 256),
        sparse_banded(a_lin),
        a_bias.len() == 32,
        s.len() == 32,
    ensures
        forall|i: int|
            0 <= i < 32 ==> #[trigger] sbox_state_spec(a_lin, a_bias, s)[i] == sbox_spec(
                gf2::bytes_from_bits(affine256_apply_spec(a_lin, a_bias, s))[i],
            ),
{
    assert forall|i: int| 0 <= i < 32 implies #[trigger] sbox_state_spec(a_lin, a_bias, s)[i]
        == sbox_spec(gf2::bytes_from_bits(affine256_apply_spec(a_lin, a_bias, s))[i]) by {
        lemma_sparse_z_decodes(a_lin, a_bias, s, i);
    }
}

/// Why the construction fits together: one round of table lookups on
/// state s computes the derived linear map applied to the vector of S-box
/// outputs, masked only by the bias target — the h-mask contributions
/// cancel in pairs and the bias shares collapse to their XOR.
pub proof fn lemma_round_tables_evaluate(
    rt: RoundTables,
    a_lin: Seq<Seq<bool>>,
    a_bias: Seq<u8>,
    b_lin: Seq<Seq<bool>>,
    b_biases: Seq<Seq<u8>>,
    h: Seq<HTable>,
    b_target: Seq<u8>,
    s: Seq<u8>,
)
    requires
        gf2::wf_mat(b_lin, 256, 256),
        b_biases.len() == 32,
        forall|i: int| 0 <= i < 32 ==> (#[trigger] b_biases[i]).len() == 32,
        h.len() == 32,
        forall|i: int| 0 <= i < 32 ==> (#[trigger] h[i]).wf(),
        s.len() == 32,
        xor_shares_spec(b_biases) == b_target,
        forall|i: int, x: u8, y: u8|
            0 <= i < 32 ==> gf2::byte_bits(#[trigger] rt.tables@[i].entry(x, y))
                == round_entry_bits_spec(
                a_lin,
                a_bias,
                b_lin,
                b_biases[i],
                h[i].entry(x),
                h[succ32(i)].entry(y),
                i,
                x,
                y,
            ),
    ensures
        gf2::byte_bits(crate::runtime::round_eval_spec(rt, s)) == gf2::vec_xor(
            gf2::mat_apply(b_lin, gf2::byte_bits(sbox_state_spec(a_lin, a_bias, s))),
            gf2::byte_bits(b_target),
        ),
{
    let entries = Seq::new(32, |i: int| rt.tables@[i].entry(s[i], s[succ32(i)]));
    lemma_round_xor_as_shares(rt, s, 32, entries);
    assert(entries.take(32) =~= entries);
    assert(crate::runtime::round_eval_spec(rt, s) == xor_shares_spec(entries));
    assert forall|i: int| 0 <= i < 32 implies (#[trigger] entries[i]).len() == 32 by {
        assert(gf2::byte_bits(entries[i]).len() == 8 * entries[i].len());
        assert(gf2::byte_bits(entries[i]) == round_entry_bits_spec(
            a_lin,
            a_bias,
            b_lin,
            b_biases[i],
            h[i].entry(s[i]),
            h[succ32(i)].entry(s[succ32(i)]),
            i,
            s[i],
            s[succ32(i)],
        ));
    }
    let ebits = Seq::new(32nat, |i: int| gf2::byte_bits(entries[i]));
    lemma_shares_bits(ebits, entries);
    let tvec = sbox_state_spec(a_lin, a_bias, s);
    let bpart = Seq::new(32nat, |i: int| gf2::byte_bits(byte_at(i, tvec[i])));
    let bapplied = Seq::new(32nat, |i: int| gf2::mat_apply(b_lin, bpart[i]));
    let biaspart = Seq::new(32nat, |i: int| gf2::byte_bits(b_biases[i]));
    let hxpart = Seq::new(32nat, |i: int| gf2::byte_bits(h[i].entry(s[i])));
    let hypart = Seq::new(32nat, |i: int| gf2::byte_bits(h[succ32(i)].entry(s[succ32(i)])));
    let zip2 = Seq::new(32nat, |i: int| gf2::vec_xor(bapplied[i], biaspart[i]));
    let zip3 = Seq::new(32nat, |i: int| gf2::vec_xor(zip2[i], hxpart[i]));
    assert forall|i: int| 0 <= i < 32 implies #[trigger] ebits[i] == gf2::vec_xor(
        zip3[i],
        hypart[i],
    ) by {
        assert(gf2::byte_bits(entries[i]) == round_entry_bits_spec(
            a_lin,
            a_bias,
            b_lin,
            b_biases[i],
            h[i].entry(s[i]),
            h[succ32(i)].entry(s[succ32(i)]),
            i,
            s[i],
            s[succ32(i)],
        ));
        assert(tvec[i] == sbox_spec(round_z_spec(a_lin, a_bias, i, s[i], s[succ32(i)])));
    }
    // lengths of the component rows
    assert forall|i: int| 0 <= i < 32 implies (#[trigger] hxpart[i]).len() == 256 by {
        h[i].lemma_entry_len(s[i]);
    }
    assert forall|i: int| 0 <= i < 32 implies (#[trigger] hypart[i]).len() == 256 by {
        assert(0 <= succ32(i) < 32);
        h[succ32(i)].lemma_entry_len(s[succ32(i)]);
    }
    assert forall|i: int| 0 <= i < 32 implies (#[trigger] biaspart[i]).len() == 256 by {}
    assert forall|i: int| 0 <= i < 32 implies (#[trigger] bapplied[i]).len() == 256 by {}
    assert forall|i: int| 0 <= i < 32 implies (#[trigger] zip2[i]).len() == 256 by {}
    assert forall|i: int| 0 <= i < 32 implies (#[trigger] zip3[i]).len() == 256 by {}
    // peel the four folded components apart
    gf2::lemma_xor_fold_zip(ebits, zip3, hypart, 256);
    gf2::lemma_xor_fold_zip(zip3, zip2, hxpart, 256);
    gf2::lemma_xor_fold_zip(zip2, bapplied, biaspart, 256);
    // the two h folds cancel against each other
    let hpairs = Seq::new(32nat, |i: int| gf2::vec_xor(hxpart[i], hypart[i]));
    assert forall|i: int| 0 <= i < 32 implies #[trigger] hpairs[i] == gf2::vec_xor(
        hxpart[i],
        hxpart[(i + 1) % (hxpart.len() as int)],
    ) by {
        assert((i + 1) % 32int == succ32(i)) by (nonlinear_arith)
            requires
                0 <= i < 32,
        ;
    }
    gf2::lemma_cyclic_xor_cancels(hpairs, hxpart, 256);
    gf2::lemma_xor_fold_zip(hpairs, hxpart, hypart, 256);
    // the bias shares collapse to the target
    lemma_shares_bits(biaspart, b_biases);
    // the linear part collapses to one application
    assert forall|i: int| 0 <= i < 32 implies (#[trigger] bpart[i]).len() == 256 by {}
    lemma_fold_apply(bapplied, b_lin, bpart);
    let atparts = Seq::new(32nat, |i: int| byte_at(i, tvec[i]));
    assert forall|i: int| 0 <= i < 32 implies (#[trigger] atparts[i]).len() == 32 by {}
    lemma_byte_at_fold(atparts, tvec, 32);
    assert(xor_shares_spec(atparts) =~= tvec);
    lemma_shares_bits(bpart, atparts);
    assert(gf2::xor_fold(bpart, 256) == gf2::byte_bits(tvec));
    // assemble, bit by bit
    gf2::lemma_xor_fold_len(bapplied, 256);
    gf2::lemma_xor_fold_len(biaspart, 256);
    gf2::lemma_xor_fold_len(hxpart, 256);
    gf2::lemma_xor_fold_len(hypart, 256);
    gf2::lemma_xor_fold_len(zip2, 256);
    gf2::lemma_xor_fold_len(zip3, 256);
    gf2::lemma_xor_fold_len(ebits, 256);
    assert(gf2::byte_bits(b_target).len() == 256);
    assert forall|t: int| 0 <= t < 256 implies #[trigger] gf2::xor_fold(ebits, 256)[t]
        == gf2::vec_xor(
        gf2::mat_apply(b_lin, gf2::byte_bits(tvec)),
        gf2::byte_bits(b_target),
    )[t] by {
        assert(gf2::xor_fold(ebits, 256)[t] == (gf2::xor_fold(zip3, 256)[t] != gf2::xor_fold(
            hypart,
            256,
        )[t]));
        assert(gf2::xor_fold(zip3, 256)[t] == (gf2::xor_fold(zip2, 256)[t] != gf2::xor_fold(
            hxpart,
            256,
        )[t]));
        assert(gf2::xor_fold(zip2, 256)[t] == (gf2::xor_fold(bapplied, 256)[t] != gf2::xor_fold(
            biaspart,
            256,
        )[t]));
        assert((gf2::xor_fold(hxpart, 256)[t] != gf2::xor_fold(hypart, 256)[t]) == gf2::xor_fold(
            hpairs,
            256,
        )[t]);
        assert(!gf2::zero_vec(256)[t]);
    }
    assert(gf2::byte_bits(crate::runtime::round_eval_spec(rt, s)) =~= gf2::vec_xor(
        gf2::mat_apply(b_lin, gf2::byte_bits(tvec)),
        gf2::byte_bits(b_target),
    ));
}

/// A 16-byte round key duplicated across both halves of the doubled
/// state.
pub open spec fn dup_key_spec(k: Seq<u8>) -> Seq<u8> {
    k + k
}

/// The true doubled state after rounds 0..=r: the initial AddRoundKey,
/// then full rounds, the last omitting MixColumns, acting on both halves
/// of the 32-byte state at once.
pub open spec fn wb_state_spec(keys: Seq<Seq<u8>>, p: Seq<u8>, r: int) -> Seq<u8>
    decreases r,
{
    if r <= 0 {
        gf2::bytes_xor(p, dup_key_spec(keys[0]))
    } else if r < 10 {
        gf2::bytes_xor(
            crate::linear::mc_sr_double_spec(
                crate::round::sub_bytes_spec(wb_state_spec(keys, p, r - 1)),
            ),
            dup_key_spec(keys[r]),
        )
    } else {
        gf2::bytes_xor(
            crate::linear::sr_double_spec(
                crate::round::sub_bytes_spec(wb_state_spec(keys, p, r - 1)),
            ),
            dup_key_spec(keys[10]),
        )
    }
}

/// The doubled chain is the two per-half AES chains side by side.
proof fn lemma_wb_state_halves(keys: Seq<Seq<u8>>, p: Seq<u8>, r: int)
    requires
        p.len() == 32,
        0 <= r <= 10,
        keys.len() == 11,
        forall|t: int| 0 <= t < 11 ==> (#[trigger] keys[t]).len() == 16,
    ensures
        wb_state_spec(keys, p, r).len() == 32,
        wb_state_spec(keys, p, r).subrange(0, 16) == crate::cipher::aes_state_spec(
            keys,
            p.subrange(0, 16),
            r,
        ),
        wb_state_spec(keys, p, r).subrange(16, 32) == crate::cipher::aes_state_spec(
            keys,
            p.subrange(16, 32),
            r,
        ),
    decreases r,
{
    if r == 0 {
        assert(wb_state_spec(keys, p, 0).subrange(0, 16) =~= crate::cipher::aes_state_spec(
            keys,
            p.subrange(0, 16),
            0,
        ));
        assert(wb_state_spec(keys, p, 0).subrange(16, 32) =~= crate::cipher::aes_state_spec(
            keys,
            p.subrange(16, 32),
            0,
        ));
    } else {
        lemma_wb_state_halves(keys, p, r - 1);
        let prev = wb_state_spec(keys, p, r - 1);
        let sb = crate::round::sub_bytes_spec(prev);
        assert(sb.subrange(0, 16) =~= crate::round::sub_bytes_spec(prev.subrange(0, 16)));
        assert(sb.subrange(16, 32) =~= crate::round::sub_bytes_spec(prev.subrange(16, 32)));
        if r < 10 {
            let d = crate::linear::mc_sr_double_spec(sb);
            assert(d.subrange(0, 16) =~= crate::linear::mc_sr_spec(sb.subrange(0, 16)));
            assert(d.subrange(16, 32) =~= crate::linear::mc_sr_spec(sb.subrange(16, 32)));
            assert(wb_state_spec(keys, p, r).subrange(0, 16) =~= crate::cipher::aes_state_spec(
                keys,
                p.subrange(0, 16),
                r,
            ));
            assert(wb_state_spec(keys, p, r).subrange(16, 32) =~= crate::cipher::aes_state_spec(
                keys,
                p.subrange(16, 32),
                r,
            ));
        } else {
            let d = crate::linear::sr_double_spec(sb);
            assert(d.subrange(0, 16) =~= crate::round::shift_rows_spec(sb.subrange(0, 16)));
            assert(d.subrange(16, 32) =~= crate::round::shift_rows_spec(sb.subrange(16, 32)));
            assert(wb_state_spec(keys, p, r).subrange(0, 16) =~= crate::cipher::aes_state_spec(
                keys,
                p.subrange(0, 16),
                r,
            ));
            assert(wb_state_spec(keys, p, r).subrange(16, 32) =~= crate::cipher::aes_state_spec(
                keys,
                p.subrange(16, 32),
                r,
            ));
        }
    }
}

/// One round step: when the incoming state is the t-th encoding of the
/// true state, the next encoding of the round's output is the true state
/// after round t+1.
/// The input encoding decodes through a1 to the plaintext XORed with the
/// doubled first round key: applying a1 to the pre-round state recovers
/// the initial AddRoundKey state, for every 32-byte plaintext.
pub open spec fn input_encoding_decodes(input: Affine256, a1: Affine256, keys: Seq<Seq<u8>>) -> bool {
    forall|p: Seq<u8>|
        p.len() == 32 ==> #[trigger] affine256_apply_spec(
            a1.lin@,
            a1.bias@,
            crate::runtime::affine_apply_bytes(input, p),
        ) == gf2::byte_bits(gf2::bytes_xor(p, dup_key_spec(keys[0])))
}

/// The round's S-box outputs are the S-box applied to the decoded true
/// state.
proof fn lemma_sbox_is_sub(enc: Affine256, cur: Seq<u8>, wt: Seq<u8>)
    requires
        enc.wf(),
        sparse_banded(enc.lin@),
        cur.len() == 32,
        wt.len() == 32,
        gf2::bytes_from_bits(affine256_apply_spec(enc.lin@, enc.bias@, cur)) == wt,
    ensures
        sbox_state_spec(enc.lin@, enc.bias@, cur) == crate::round::sub_bytes_spec(wt),
{
    lemma_sbox_state_decodes(enc.lin@, enc.bias@, cur);
    assert(sbox_state_spec(enc.lin@, enc.bias@, cur) =~= crate::round::sub_bytes_spec(wt));
}

#[verifier::rlimit(60)]
proof fn lemma_round_step(
    rt: RoundTables,
    enc: Affine256,
    lay: Seq<Seq<bool>>,
    is_mc: bool,
    keys: Seq<Seq<u8>>,
    p: Seq<u8>,
    cur: Seq<u8>,
    t: int,
    av: Seq<bool>,
)
    requires
        0 <= t < 10,
        is_mc <==> t < 9,
        p.len() == 32,
        cur.len() == 32,
        keys.len() == 11,
        forall|k: int| 0 <= k < 11 ==> (#[trigger] keys[k]).len() == 16,
        enc.wf(),
        sparse_banded(enc.lin@),
        gf2::wf_mat(lay, 256, 256),
        is_mc ==> forall|row: int, k: int|
            0 <= row < 256 && 0 <= k < 256 ==> #[trigger] lay[row][k] == gf2::byte_bits(
                crate::linear::mc_sr_double_spec(crate::linear::unit_bytes32(k)),
            )[row],
        !is_mc ==> forall|row: int, k: int|
            0 <= row < 256 && 0 <= k < 256 ==> #[trigger] lay[row][k] == gf2::byte_bits(
                crate::linear::sr_double_spec(crate::linear::unit_bytes32(k)),
            )[row],
        av == gf2::vec_xor(
            gf2::mat_apply(lay, gf2::byte_bits(sbox_state_spec(enc.lin@, enc.bias@, cur))),
            gf2::byte_bits(dup_key_spec(keys[t + 1])),
        ),
        gf2::bytes_from_bits(affine256_apply_spec(enc.lin@, enc.bias@, cur)) == wb_state_spec(
            keys,
            p,
            t,
        ),
    ensures
        av == gf2::byte_bits(wb_state_spec(keys, p, t + 1)),
{
    lemma_wb_state_halves(keys, p, t);
    let wt = wb_state_spec(keys, p, t);
    lemma_sbox_is_sub(enc, cur, wt);
    let sb = crate::round::sub_bytes_spec(wt);
    if is_mc {
        crate::linear::lemma_mc_sr_matrix_applies(lay, sb);
        gf2::lemma_byte_bits_xor(
            crate::linear::mc_sr_double_spec(sb),
            dup_key_spec(keys[t + 1]),
        );
    } else {
        crate::linear::lemma_sr_matrix_applies(lay, sb);
        gf2::lemma_byte_bits_xor(crate::linear::sr_double_spec(sb), dup_key_spec(keys[t + 1]));
    }
}

/// Applying an identity encoding changes nothing.
proof fn lemma_identity_next(nxt: Affine256, v: Seq<u8>)
    requires
        nxt.lin@ == gf2::ident_mat(256),
        nxt.bias@.len() == 32,
        forall|j: int| 0 <= j < 32 ==> #[trigger] nxt.bias@[j] == 0u8,
        v.len() == 32,
    ensures
        affine256_apply_spec(nxt.lin@, nxt.bias@, v) == gf2::byte_bits(v),
{
    gf2::lemma_ident_apply(256, gf2::byte_bits(v));
    assert forall|j: int| 0 <= j < 256 implies !gf2::byte_bits(nxt.bias@)[j] by {
        assert(0 <= j / 8 < 32 && 0 <= j % 8 < 8) by (nonlinear_arith)
            requires
                0 <= j < 256,
        ;
        gf2::lemma_u8_bits_zero();
        assert(gf2::u8_bits(0)[j % 8] == gf2::zero_vec(8)[j % 8]);
    }
    assert(affine256_apply_spec(nxt.lin@, nxt.bias@, v) =~= gf2::byte_bits(v));
}

/// Composing the rounds: when the state entering round t is the t-th
/// encoding of the true state, evaluating the remaining rounds yields the
/// true final state.
proof fn lemma_rounds_compose(
    rounds: Seq<RoundTables>,
    encs: Seq<Affine256>,
    nexts: Seq<Affine256>,
    mcv: Seq<Seq<bool>>,
    srv: Seq<Seq<bool>>,
    keys: Seq<Seq<u8>>,
    p: Seq<u8>,
    cur: Seq<u8>,
    t: int,
)
    requires
        0 <= t < 10,
        rounds.len() == 10,
        encs.len() == 10,
        nexts.len() == 10,
        p.len() == 32,
        cur.len() == 32,
        keys.len() == 11,
        forall|k: int| 0 <= k < 11 ==> (#[trigger] keys[k]).len() == 16,
        forall|k: int|
            0 <= k < 10 ==> (#[trigger] encs[k]).wf() && sparse_banded(encs[k].lin@),
        forall|k: int| 0 <= k < 9 ==> #[trigger] nexts[k] == encs[k + 1],
        nexts[9].lin@ == gf2::ident_mat(256),
        nexts[9].bias@.len() == 32,
        forall|j: int| 0 <= j < 32 ==> #[trigger] nexts[9].bias@[j] == 0u8,
        gf2::wf_mat(mcv, 256, 256),
        gf2::wf_mat(srv, 256, 256),
        forall|row: int, k: int|
            0 <= row < 256 && 0 <= k < 256 ==> #[trigger] mcv[row][k] == gf2::byte_bits(
                crate::linear::mc_sr_double_spec(crate::linear::unit_bytes32(k)),
            )[row],
        forall|row: int, k: int|
            0 <= row < 256 && 0 <= k < 256 ==> #[trigger] srv[row][k] == gf2::byte_bits(
                crate::linear::sr_double_spec(crate::linear::unit_bytes32(k)),
            )[row],
        forall|k: int, s: Seq<u8>|
            0 <= k < 10 && s.len() == 32 ==> affine256_apply_spec(
                nexts[k].lin@,
                nexts[k].bias@,
                #[trigger] crate::runtime::round_eval_spec(rounds[k], s),
            ) == gf2::vec_xor(
                gf2::mat_apply(
                    if k < 9 {
                        mcv
                    } else {
                        srv
                    },
                    gf2::byte_bits(sbox_state_spec(encs[k].lin@, encs[k].bias@, s)),
                ),
                gf2::byte_bits(dup_key_spec(keys[k + 1])),
            ),
        gf2::bytes_from_bits(affine256_apply_spec(encs[t].lin@, encs[t].bias@, cur))
            == wb_state_spec(keys, p, t),
    ensures
        crate::runtime::rounds_eval_spec(rounds, cur, t) == wb_state_spec(keys, p, 10),
    decreases 10 - t,
{
    let nxt = crate::runtime::round_eval_spec(rounds[t], cur);
    crate::runtime::lemma_round_xor_len(rounds[t], cur, 32);
    let av = affine256_apply_spec(nexts[t].lin@, nexts[t].bias@, nxt);
    assert(av == gf2::vec_xor(
        gf2::mat_apply(
            if t < 9 {
                mcv
            } else {
                srv
            },
            gf2::byte_bits(sbox_state_spec(encs[t].lin@, encs[t].bias@, cur)),
        ),
        gf2::byte_bits(dup_key_spec(keys[t + 1])),
    ));
    assert(av == gf2::byte_bits(wb_state_spec(keys, p, t + 1))) by {
        if t < 9 {
            lemma_round_step(rounds[t], encs[t], mcv, true, keys, p, cur, t, av);
        } else {
            lemma_round_step(rounds[t], encs[t], srv, false, keys, p, cur, t, av);
        }
    }
    if t == 9 {
        assert(av == gf2::byte_bits(nxt)) by {
            lemma_identity_next(nexts[9], nxt);
        }
        gf2::lemma_bytes_from_bits_id(nxt);
        gf2::lemma_bytes_from_bits_id(wb_state_spec(keys, p, 10));
        assert(nxt == wb_state_spec(keys, p, 10));
        assert(crate::runtime::rounds_eval_spec(rounds, nxt, 10) == nxt);
    } else {
        assert(nexts[t] == encs[t + 1]);
        lemma_wb_state_halves(keys, p, t + 1);
        gf2::lemma_bytes_from_bits_id(wb_state_spec(keys, p, t + 1));
        assert(gf2::bytes_from_bits(
            affine256_apply_spec(encs[t + 1].lin@, encs[t + 1].bias@, nxt),
        ) == wb_state_spec(keys, p, t + 1));
        lemma_rounds_compose(rounds, encs, nexts, mcv, srv, keys, p, nxt, t + 1);
    }
}

/// Splits a 32-byte target into 32 shares whose XOR is the target: the/// Splits a 32-byte target into 32 shares whose XOR is the target: the
/// first 31 are drawn from the generator and the last absorbs the
/// difference.
pub fn split_biases(rng: &mut WbRng, target: &Vec<u8>) -> (r: Vec<Vec<u8>>)
    requires
        target@.len() == 32,
    ensures
        r@.len() == 32,
        forall|t: int| 0 <= t < 32 ==> (#[trigger] r@[t])@.len() == 32,
        xor_shares_spec(views_of(r@)) == target@,
{
    let mut shares: Vec<Vec<u8>> = Vec::new();
    let mut accum = zero_bytes(32);
    proof {
        assert(views_of(shares@) =~= Seq::<Seq<u8>>::empty());
        assert(xor_shares_spec(views_of(shares@)) =~= accum@);
    }
    for i in 0..31usize
        invariant
            target@.len() == 32,
            shares@.len() == i,
            accum@.len() == 32,
            forall|t: int| 0 <= t < i ==> (#[trigger] shares@[t])@.len() == 32,
            xor_shares_spec(views_of(shares@)) == accum@,
    {
        let share = rng.random_bytes(32);
        let ghost shares_snap = shares@;
        xor_in_place(&mut accum, &share);
        shares.push(share);
        proof {
            assert(views_of(shares@).drop_last() =~= views_of(shares_snap));
            assert(views_of(shares@).last() == shares@[shares@.len() - 1]@);
        }
    }
    let mut last = copy_bytes(target);
    xor_in_place(&mut last, &accum);
    let ghost shares_snap = shares@;
    shares.push(last);
    proof {
        assert(views_of(shares@).drop_last() =~= views_of(shares_snap));
        assert(views_of(shares@).last() == gf2::bytes_xor(target@, accum@));
        assert forall|t: int| 0 <= t < 32 implies #[trigger] xor_shares_spec(views_of(shares@))[t]
            == target@[t] by {
            gf2::lemma_u8_xor_cancel(accum@[t], target@[t]);
        }
        assert(xor_shares_spec(views_of(shares@)) =~= target@);
    }
    shares
}

/// Duplicates a 16-byte round key across both halves of a 32-byte block.
fn duplicate_round_key(round_key: &Vec<u8>) -> (r: Vec<u8>)
    requires
        round_key@.len() == 16,
    ensures
        r@.len() == 32,
        r@ == round_key@ + round_key@,
{
    let mut out = copy_bytes(round_key);
    crate::block::append_bytes(&mut out, round_key);
    out
}

/// Builds the 32 tables of one round from the incoming encoding, the
/// derived linear map, the bias shares and the h-masks. This part of the
/// construction is deterministic, and the contract pins every entry.
pub fn build_round_tables(
    a_curr: &Affine256,
    b_lin: &Matrix256,
    b_biases: &Vec<Vec<u8>>,
    h_tables: &Vec<HTable>,
) -> (rt: RoundTables)
    requires
        a_curr.wf(),
        b_lin.wf(),
        b_biases@.len() == 32,
        forall|t: int| 0 <= t < 32 ==> (#[trigger] b_biases@[t])@.len() == 32,
        h_tables@.len() == 32,
        forall|t: int| 0 <= t < 32 ==> (#[trigger] h_tables@[t]).wf(),
    ensures
        rt.wf(),
        forall|i: int, x: u8, y: u8|
            0 <= i < 32 ==> gf2::byte_bits(#[trigger] rt.tables@[i].entry(x, y))
                == round_entry_bits_spec(
                a_curr.lin@,
                a_curr.bias@,
                b_lin@,
                b_biases@[i]@,
                h_tables@[i].entry(x),
                h_tables@[if i == 31 {
                    0int
                } else {
                    i + 1
                }].entry(y),
                i,
                x,
                y,
            ),
{
    let mut tables: Vec<Table16x256> = Vec::new();
    for i in 0..32usize
        invariant
            a_curr.wf(),
            b_lin.wf(),
            b_biases@.len() == 32,
            forall|t: int| 0 <= t < 32 ==> (#[trigger] b_biases@[t])@.len() == 32,
            h_tables@.len() == 32,
            forall|t: int| 0 <= t < 32 ==> (#[trigger] h_tables@[t]).wf(),
            tables@.len() == i,
            forall|t: int| 0 <= t < i ==> (#[trigger] tables@[t]).wf(),
            forall|t: int, x: u8, y: u8|
                0 <= t < i ==> gf2::byte_bits(#[trigger] tables@[t].entry(x, y))
                    == round_entry_bits_spec(
                    a_curr.lin@,
                    a_curr.bias@,
                    b_lin@,
                    b_biases@[t]@,
                    h_tables@[t].entry(x),
                    h_tables@[if t == 31 {
                        0int
                    } else {
                        t + 1
                    }].entry(y),
                    t,
                    x,
                    y,
                ),
    {
        let ni = if i == 31 {
            0
        } else {
            i + 1
        };
        let block_left = a_curr.lin.block(i, i);
        let block_right = a_curr.lin.block(i, ni);
        let a_bias_i = a_curr.bias[i];
        let b_map = b_lin.submatrix_byte_map(i);
        let mut table = Table16x256::new_zeroed();
        proof {
            assert forall|r: int| 0 <= r < 8 implies block_left@[r] == block_spec(
                a_curr.lin@,
                i as int,
                i as int,
            )[r] by {
                assert(block_left@[r] =~= block_spec(a_curr.lin@, i as int, i as int)[r]);
            }
            assert(block_left@ =~= block_spec(a_curr.lin@, i as int, i as int));
            assert forall|r: int| 0 <= r < 8 implies block_right@[r] == block_spec(
                a_curr.lin@,
                i as int,
                ni as int,
            )[r] by {
                assert(block_right@[r] =~= block_spec(a_curr.lin@, i as int, ni as int)[r]);
            }
            assert(block_right@ =~= block_spec(a_curr.lin@, i as int, ni as int));
        }
        let mut left_vals: Vec<u8> = Vec::new();
        for v in 0..256usize
            invariant
                block_left.wf(),
                left_vals@.len() == v,
                forall|t: int|
                    0 <= t < v ==> gf2::u8_bits(#[trigger] left_vals@[t]) == gf2::mat_apply(
                        block_left@,
                        gf2::u8_bits(t as u8),
                    ),
        {
            left_vals.push(block_left.apply(v as u8));
        }
        let mut right_vals: Vec<u8> = Vec::new();
        for v in 0..256usize
            invariant
                block_right.wf(),
                right_vals@.len() == v,
                forall|t: int|
                    0 <= t < v ==> gf2::u8_bits(#[trigger] right_vals@[t]) == gf2::mat_apply(
                        block_right@,
                        gf2::u8_bits(t as u8),
                    ),
        {
            right_vals.push(block_right.apply(v as u8));
        }
        let mut tmap: Vec<Vec<u8>> = Vec::new();
        for v in 0..256usize
            invariant
                b_map@.len() == 256,
                forall|t: int| 0 <= t < 256 ==> (#[trigger] b_map@[t])@.len() == 32,
                b_biases@.len() == 32,
                forall|t: int| 0 <= t < 32 ==> (#[trigger] b_biases@[t])@.len() == 32,
                i < 32,
                tmap@.len() == v,
                forall|t: int|
                    0 <= t < v ==> (#[trigger] tmap@[t])@ == gf2::bytes_xor(
                        b_map@[t]@,
                        b_biases@[i as int]@,
                    ),
        {
            let mut row = copy_bytes(&b_map[v]);
            xor_in_place(&mut row, &b_biases[i]);
            tmap.push(row);
        }
        proof {
            assert forall|v: int| 0 <= v < 256 implies (#[trigger] tmap@[v])@.len() == 32
                && gf2::byte_bits(tmap@[v]@) == gf2::vec_xor(
                gf2::mat_apply(b_lin@, gf2::byte_bits(byte_at(i as int, v as u8))),
                gf2::byte_bits(b_biases@[i as int]@),
            ) by {
                gf2::lemma_byte_bits_xor(b_map@[v]@, b_biases@[i as int]@);
            }
        }
        for x in 0..256usize
            invariant
                a_curr.wf(),
                b_lin.wf(),
                b_biases@.len() == 32,
                forall|t: int| 0 <= t < 32 ==> (#[trigger] b_biases@[t])@.len() == 32,
                h_tables@.len() == 32,
                forall|t: int| 0 <= t < 32 ==> (#[trigger] h_tables@[t]).wf(),
                i < 32,
                ni == (if i == 31 {
                    0int
                } else {
                    i as int + 1
                }),
                block_left.wf(),
                block_right.wf(),
                block_left@ == block_spec(a_curr.lin@, i as int, i as int),
                block_right@ == block_spec(a_curr.lin@, i as int, ni as int),
                a_bias_i == a_curr.bias@[i as int],
                tmap@.len() == 256,
                forall|v: int| 0 <= v < 256 ==> (#[trigger] tmap@[v])@.len() == 32,
                forall|v: int|
                    0 <= v < 256 ==> gf2::byte_bits((#[trigger] tmap@[v])@) == gf2::vec_xor(
                        gf2::mat_apply(b_lin@, gf2::byte_bits(byte_at(i as int, v as u8))),
                        gf2::byte_bits(b_biases@[i as int]@),
                    ),
                left_vals@.len() == 256,
                right_vals@.len() == 256,
                forall|v: int|
                    0 <= v < 256 ==> gf2::u8_bits(#[trigger] left_vals@[v]) == gf2::mat_apply(
                        block_left@,
                        gf2::u8_bits(v as u8),
                    ),
                forall|v: int|
                    0 <= v < 256 ==> gf2::u8_bits(#[trigger] right_vals@[v]) == gf2::mat_apply(
                        block_right@,
                        gf2::u8_bits(v as u8),
                    ),
                table.wf(),
                forall|a: u8, b: u8|
                    (a as int) < x ==> gf2::byte_bits(#[trigger] table.entry(a, b))
                        == round_entry_bits_spec(
                        a_curr.lin@,
                        a_curr.bias@,
                        b_lin@,
                        b_biases@[i as int]@,
                        h_tables@[i as int].entry(a),
                        h_tables@[ni as int].entry(b),
                        i as int,
                        a,
                        b,
                    ),
        {
            let xb = x as u8;
            let zx = left_vals[x];
            let hx = copy_bytes(h_tables[i].get(xb));
            for y in 0..256usize
                invariant
                    a_curr.wf(),
                    b_lin.wf(),
                    b_biases@.len() == 32,
                    forall|t: int| 0 <= t < 32 ==> (#[trigger] b_biases@[t])@.len() == 32,
                    h_tables@.len() == 32,
                    forall|t: int| 0 <= t < 32 ==> (#[trigger] h_tables@[t]).wf(),
                    i < 32,
                    x < 256,
                    xb == x as u8,
                    ni == (if i == 31 {
                        0int
                    } else {
                        i as int + 1
                    }),
                    block_left.wf(),
                    block_right.wf(),
                    block_left@ == block_spec(a_curr.lin@, i as int, i as int),
                    block_right@ == block_spec(a_curr.lin@, i as int, ni as int),
                    a_bias_i == a_curr.bias@[i as int],
                    right_vals@.len() == 256,
                    forall|v: int|
                        0 <= v < 256 ==> gf2::u8_bits(#[trigger] right_vals@[v]) == gf2::mat_apply(
                            block_right@,
                            gf2::u8_bits(v as u8),
                        ),
                    gf2::u8_bits(zx) == gf2::mat_apply(block_left@, gf2::u8_bits(xb)),
                    hx@ == h_tables@[i as int].entry(xb),
                    hx@.len() == 32,
                    tmap@.len() == 256,
                    forall|v: int| 0 <= v < 256 ==> (#[trigger] tmap@[v])@.len() == 32,
                    forall|v: int|
                        0 <= v < 256 ==> gf2::byte_bits((#[trigger] tmap@[v])@) == gf2::vec_xor(
                            gf2::mat_apply(b_lin@, gf2::byte_bits(byte_at(i as int, v as u8))),
                            gf2::byte_bits(b_biases@[i as int]@),
                        ),
                    table.wf(),
                    forall|a: u8, b: u8|
                        ((a as int) < x || ((a as int) == x && (b as int) < y)) ==> gf2::byte_bits(
                            #[trigger] table.entry(a, b),
                        ) == round_entry_bits_spec(
                            a_curr.lin@,
                            a_curr.bias@,
                            b_lin@,
                            b_biases@[i as int]@,
                            h_tables@[i as int].entry(a),
                            h_tables@[ni as int].entry(b),
                            i as int,
                            a,
                            b,
                        ),
            {
                let yb = y as u8;
                let zy = right_vals[y];
                let z = (zx ^ zy) ^ a_bias_i;
                let t = sbox(z);
                let hy = h_tables[ni].get(yb);
                proof {
                    gf2::lemma_u8_bits_xor(zx, zy);
                    gf2::lemma_u8_bits_xor(zx ^ zy, a_bias_i);
                    gf2::lemma_u8_from_bits_id(z);
                    assert(z == round_z_spec(a_curr.lin@, a_curr.bias@, i as int, xb, yb));
                }
                table.set_xor3(xb, yb, &tmap[t as usize], &hx, hy);
                proof {
                    gf2::lemma_byte_bits_xor(tmap@[t as int]@, hx@);
                    gf2::lemma_byte_bits_xor(gf2::bytes_xor(tmap@[t as int]@, hx@), hy@);
                    assert(gf2::byte_bits(table.entry(xb, yb)) == round_entry_bits_spec(
                        a_curr.lin@,
                        a_curr.bias@,
                        b_lin@,
                        b_biases@[i as int]@,
                        h_tables@[i as int].entry(xb),
                        h_tables@[ni as int].entry(yb),
                        i as int,
                        xb,
                        yb,
                    ));
                }
            }
        }
        tables.push(table);
    }
    let rt = RoundTables { tables };
    rt
}

/// Builds one round: inverts the next encoding, derives the linear map
/// and bias target, splits the target into shares, samples the h-masks,
/// and fills the tables. The contract is functional and holds for every
/// draw: applying the next encoding to the XOR of the round's 32 looked-up
/// entries yields the linear layer applied to the round's S-box outputs,
/// XORed with the round key block — the h-masks and bias shares cancel.
fn build_round(
    rng: &mut WbRng,
    a_curr: &Affine256,
    next_affine: &Affine256,
    linear_layer: &Matrix256,
    round_key_block: &Vec<u8>,
) -> (rt: RoundTables)
    requires
        a_curr.wf(),
        next_affine.wf(),
        gf2::invertible(next_affine.lin@, 256),
        linear_layer.wf(),
        round_key_block@.len() == 32,
    ensures
        rt.wf(),
        forall|s: Seq<u8>|
            s.len() == 32 ==> #[trigger] affine256_apply_spec(
                next_affine.lin@,
                next_affine.bias@,
                crate::runtime::round_eval_spec(rt, s),
            ) == gf2::vec_xor(
                gf2::mat_apply(
                    linear_layer@,
                    gf2::byte_bits(sbox_state_spec(a_curr.lin@, a_curr.bias@, s)),
                ),
                gf2::byte_bits(round_key_block@),
            ),
{
    let next_inv = match next_affine.lin.invert() {
        Some(v) => v,
        None => {
            return vstd::pervasive::unreached();
        },
    };
    let b_lin = next_inv.mul(linear_layer);
    let mut b_target = next_inv.apply_to_bytes(&next_affine.bias);
    let ghost bt0 = b_target@;
    let key_contribution = next_inv.apply_to_bytes(round_key_block);
    xor_in_place(&mut b_target, &key_contribution);
    let b_biases = split_biases(rng, &b_target);
    let mut h_tables: Vec<HTable> = Vec::new();
    for _k in 0..32usize
        invariant
            h_tables@.len() == _k,
            forall|t: int| 0 <= t < _k ==> (#[trigger] h_tables@[t]).wf(),
    {
        h_tables.push(HTable::random(rng));
    }
    let rt = build_round_tables(a_curr, &b_lin, &b_biases, &h_tables);
    proof {
        let bviews = views_of(b_biases@);
        let alin = a_curr.lin@;
        let abias = a_curr.bias@;
        let bl = b_lin@;
        let nlin = next_affine.lin@;
        let ninv = next_inv@;
        let ll = linear_layer@;
        assert forall|i: int, x: u8, y: u8|
            0 <= i < 32 implies gf2::byte_bits(#[trigger] rt.tables@[i].entry(x, y))
            == round_entry_bits_spec(
            alin,
            abias,
            bl,
            bviews[i],
            h_tables@[i].entry(x),
            h_tables@[succ32(i)].entry(y),
            i,
            x,
            y,
        ) by {
            assert(bviews[i] == b_biases@[i]@);
        }
        assert forall|i: int| 0 <= i < 32 implies (#[trigger] bviews[i]).len() == 32 by {
            assert(bviews[i] == b_biases@[i]@);
        }
        assert forall|s: Seq<u8>| s.len() == 32 implies #[trigger] affine256_apply_spec(
            nlin,
            next_affine.bias@,
            crate::runtime::round_eval_spec(rt, s),
        ) == gf2::vec_xor(
            gf2::mat_apply(ll, gf2::byte_bits(sbox_state_spec(alin, abias, s))),
            gf2::byte_bits(round_key_block@),
        ) by {
            lemma_round_tables_evaluate(
                rt,
                alin,
                abias,
                bl,
                bviews,
                h_tables@,
                b_target@,
                s,
            );
            let tv = gf2::byte_bits(sbox_state_spec(alin, abias, s));
            let lt = gf2::mat_apply(ll, tv);
            let nb = gf2::mat_apply(ninv, gf2::byte_bits(next_affine.bias@));
            let nk = gf2::mat_apply(ninv, gf2::byte_bits(round_key_block@));
            // the entry fold, with the masks cancelled and the shares
            // collapsed
            let ev = gf2::byte_bits(crate::runtime::round_eval_spec(rt, s));
            assert(ev == gf2::vec_xor(gf2::mat_apply(bl, tv), gf2::byte_bits(b_target@)));
            // the target's bits are the inverse applied to bias and key
            gf2::lemma_byte_bits_xor(bt0, key_contribution@);
            assert(gf2::byte_bits(b_target@) == gf2::vec_xor(nb, nk));
            // push the next encoding through: its linear part cancels the
            // inverse
            gf2::lemma_mat_apply_mul(ninv, ll, 256, tv);
            assert(gf2::mat_apply(bl, tv) == gf2::mat_apply(ninv, lt));
            gf2::lemma_apply_linear(nlin, gf2::mat_apply(ninv, lt), gf2::vec_xor(nb, nk));
            gf2::lemma_apply_linear(nlin, nb, nk);
            gf2::lemma_inverse_cancels(ninv, nlin, 256, lt);
            gf2::lemma_inverse_cancels(ninv, nlin, 256, gf2::byte_bits(next_affine.bias@));
            gf2::lemma_inverse_cancels(ninv, nlin, 256, gf2::byte_bits(round_key_block@));
            assert(affine256_apply_spec(
                nlin,
                next_affine.bias@,
                crate::runtime::round_eval_spec(rt, s),
            ) =~= gf2::vec_xor(lt, gf2::byte_bits(round_key_block@)));
        }
    }
    rt
}

impl Generator {
    /// Creates a new generator with default configuration.
    pub fn new(rng: WbRng) -> (r: Generator)
        ensures
            !r.config.external_encodings,
    {
        Generator { rng, config: GeneratorConfig { external_encodings: false } }
    }

    /// Creates a generator with explicit configuration.
    pub fn with_config(rng: WbRng, config: GeneratorConfig) -> (r: Generator)
        ensures
            r.config == config,
    {
        Generator { rng, config }
    }

    /// Returns a mutable reference to the configuration.
    pub fn config_mut(&mut self) -> (r: &mut GeneratorConfig)
        ensures
            *r == old(self).config,
            final(self).config == *final(r),
    {
        &mut self.config
    }

    /// Generates a white-box instance for the provided AES-128 key. The
    /// result carries ten well-formed rounds and a well-formed input
    /// encoding; any external output encoding is folded into the final
    /// round, so the output slot is always empty. Sampling failures are
    /// surfaced as `MatrixNotInvertible`.
    pub fn generate_instance(&mut self, key: &Aes128Key) -> (r: Result<WbInstance256, WbError>)
        requires
            key.wf(),
        ensures
            match r {
                Ok(inst) => {
                    &&& inst.wf()
                    &&& inst.encodings.output is None
                    &&& (!old(self).config.external_encodings ==> forall|p: Seq<u8>|
                        p.len() == 32 ==> #[trigger] crate::runtime::evaluate_spec(inst, p)
                            == crate::cipher::encrypt_block_spec(
                            crate::cipher::round_keys_spec(key@),
                            p.subrange(0, 16),
                        ) + crate::cipher::encrypt_block_spec(
                            crate::cipher::round_keys_spec(key@),
                            p.subrange(16, 32),
                        ))
                    &&& (!old(self).config.external_encodings ==> gf2::invertible(
                        inst.encodings.input.lin@,
                        256,
                    ))
                    &&& (!old(self).config.external_encodings ==> exists|a1: Affine256|
                        a1.wf() && sparse_banded(a1.lin@) && gf2::invertible(a1.lin@, 256)
                            && #[trigger] input_encoding_decodes(
                            inst.encodings.input,
                            a1,
                            crate::cipher::round_keys_spec(key@),
                        ))
                },
                Err(e) => e == WbError::MatrixNotInvertible,
            },
    {
        let ext = self.config.external_encodings;
        let round_keys = expand_key(key);
        let mc_sr = mc_sr_matrix_256();
        let sr_only = sr_matrix_256();

        let k0 = round_keys.get(0);
        let key0_block = duplicate_round_key(&k0);
        let key0_affine = Affine256::new(Matrix256::identity(), key0_block);

        let mut a_encodings: Vec<Affine256> = Vec::new();
        for _k in 0..10usize
            invariant
                a_encodings@.len() == _k,
                forall|t: int|
                    0 <= t < _k ==> (#[trigger] a_encodings@[t]).wf() && sparse_banded(
                        a_encodings@[t].lin@,
                    ) && gf2::invertible(a_encodings@[t].lin@, 256),
        {
            let enc = match Affine256::random_sparse_unsplit(&mut self.rng) {
                Ok(e) => e,
                Err(e) => {
                    return Err(e);
                },
            };
            a_encodings.push(enc);
        }

        let (min_encoding, mout_encoding) = if ext {
            let m_in = match Affine256::random_sparse_unsplit(&mut self.rng) {
                Ok(e) => e,
                Err(e) => {
                    return Err(e);
                },
            };
            let m_out = match Affine256::random_sparse_unsplit(&mut self.rng) {
                Ok(e) => e,
                Err(e) => {
                    return Err(e);
                },
            };
            (m_in, Some(m_out))
        } else {
            (Affine256::identity(), None)
        };

        proof {
            if !ext {
                assert(min_encoding.lin@ == gf2::ident_mat(256));
                assert(forall|j: int| 0 <= j < 32 ==> #[trigger] min_encoding.bias@[j] == 0u8);
                assert(mout_encoding is None);
            }
        }
        let a1_inv = match a_encodings[0].invert() {
            Some(v) => v,
            None => {
                return Err(WbError::MatrixNotInvertible);
            },
        };
        let min_total = min_encoding.compose(&key0_affine);
        let input_encoding = a1_inv.compose(&min_total);

        let identity_output = Affine256::identity();
        proof {
            assert(gf2::wf_mat(gf2::ident_mat(256), 256, 256));
            gf2::lemma_mat_mul_ident(gf2::ident_mat(256), 256);
            assert(gf2::invertible(identity_output.lin@, 256));
        }
        let ghost nexts = a_encodings@.skip(1).push(identity_output);
        let ghost keys = round_keys@;
        proof {
            assert forall|t: int| 0 <= t < 9 implies #[trigger] nexts[t] == a_encodings@[t
                + 1] by {}
            assert(nexts[9] == identity_output);
        }
        let mut rounds: Vec<RoundTables> = Vec::new();
        for r in 0..10usize
            invariant
                rounds@.len() == r,
                forall|t: int| 0 <= t < r ==> (#[trigger] rounds@[t]).wf(),
                a_encodings@.len() == 10,
                forall|t: int|
                    0 <= t < 10 ==> (#[trigger] a_encodings@[t]).wf() && sparse_banded(
                        a_encodings@[t].lin@,
                    ) && gf2::invertible(a_encodings@[t].lin@, 256),
                identity_output.wf(),
                gf2::invertible(identity_output.lin@, 256),
                identity_output.lin@ == gf2::ident_mat(256),
                forall|j: int| 0 <= j < 32 ==> #[trigger] identity_output.bias@[j] == 0u8,
                match mout_encoding {
                    Some(m) => m.wf() && gf2::invertible(m.lin@, 256),
                    None => true,
                },
                !ext ==> mout_encoding is None,
                mc_sr.wf(),
                sr_only.wf(),
                round_keys.wf(),
                keys == round_keys@,
                nexts == a_encodings@.skip(1).push(identity_output),
                nexts.len() == 10,
                forall|t: int| 0 <= t < 9 ==> #[trigger] nexts[t] == a_encodings@[t + 1],
                nexts[9] == identity_output,
                !ext ==> forall|t: int, s: Seq<u8>|
                    0 <= t < r && s.len() == 32 ==> affine256_apply_spec(
                        nexts[t].lin@,
                        nexts[t].bias@,
                        #[trigger] crate::runtime::round_eval_spec(rounds@[t], s),
                    ) == gf2::vec_xor(
                        gf2::mat_apply(
                            if t < 9 {
                                mc_sr@
                            } else {
                                sr_only@
                            },
                            gf2::byte_bits(
                                sbox_state_spec(
                                    a_encodings@[t].lin@,
                                    a_encodings@[t].bias@,
                                    s,
                                ),
                            ),
                        ),
                        gf2::byte_bits(dup_key_spec(keys[t + 1])),
                    ),
        {
            let next_affine = if r == 9 {
                match &mout_encoding {
                    Some(m) => m,
                    None => &identity_output,
                }
            } else {
                &a_encodings[r + 1]
            };
            let linear_layer = if r == 9 {
                &sr_only
            } else {
                &mc_sr
            };
            let kr = round_keys.get(r + 1);
            let round_key_block = duplicate_round_key(&kr);
            let round_tables = build_round(
                &mut self.rng,
                &a_encodings[r],
                next_affine,
                linear_layer,
                &round_key_block,
            );
            rounds.push(round_tables);
            proof {
                if !ext {
                    assert(*next_affine == nexts[r as int]);
                    assert(round_key_block@ == dup_key_spec(keys[r as int + 1]));
                    assert forall|t: int, s: Seq<u8>|
                        0 <= t < r + 1 && s.len() == 32 implies affine256_apply_spec(
                        nexts[t].lin@,
                        nexts[t].bias@,
                        #[trigger] crate::runtime::round_eval_spec(rounds@[t], s),
                    ) == gf2::vec_xor(
                        gf2::mat_apply(
                            if t < 9 {
                                mc_sr@
                            } else {
                                sr_only@
                            },
                            gf2::byte_bits(
                                sbox_state_spec(
                                    a_encodings@[t].lin@,
                                    a_encodings@[t].bias@,
                                    s,
                                ),
                            ),
                        ),
                        gf2::byte_bits(dup_key_spec(keys[t + 1])),
                    ) by {
                        if t == r as int {
                            assert(rounds@[t] == round_tables);
                        }
                    }
                }
            }
        }

        let inst = WbInstance256 {
            rounds,
            encodings: ExternalEncodings { input: input_encoding, output: None },
            params: InstanceParams::default(),
        };
        proof {
            if !ext {
                broadcast use crate::key::lemma_round_keys_shape;

                let encs = a_encodings@;
                let a1 = a_encodings@[0];
                assert forall|p: Seq<u8>| p.len() == 32 implies (#[trigger]
                    crate::runtime::evaluate_spec(inst, p) == crate::cipher::encrypt_block_spec(
                    crate::cipher::round_keys_spec(key@),
                    p.subrange(0, 16),
                ) + crate::cipher::encrypt_block_spec(
                    crate::cipher::round_keys_spec(key@),
                    p.subrange(16, 32),
                )) && (affine256_apply_spec(
                    a1.lin@,
                    a1.bias@,
                    crate::runtime::affine_apply_bytes(inst.encodings.input, p),
                ) == gf2::byte_bits(
                    gf2::bytes_xor(p, dup_key_spec(crate::cipher::round_keys_spec(key@)[0])),
                )) by {
                    let s0 = crate::runtime::affine_apply_bytes(inst.encodings.input, p);
                    gf2::lemma_byte_bits_from_bits(
                        affine256_apply_spec(input_encoding.lin@, input_encoding.bias@, p),
                    );
                    assert(gf2::byte_bits(s0) == affine256_apply_spec(
                        input_encoding.lin@,
                        input_encoding.bias@,
                        p,
                    ));
                    // the plaintext XORed with the doubled first round key
                    let q = gf2::bytes_xor(p, key0_block@);
                    assert(affine256_apply_spec(key0_affine.lin@, key0_affine.bias@, p)
                        == gf2::byte_bits(q)) by {
                        gf2::lemma_ident_apply(256, gf2::byte_bits(p));
                        gf2::lemma_byte_bits_xor(p, key0_block@);
                        assert(affine256_apply_spec(key0_affine.lin@, key0_affine.bias@, p)
                            =~= gf2::byte_bits(q));
                    }
                    // the outer encoding is the identity, so the pre-state
                    // entering the rounds is q seen through the inverse of
                    // the first sampled encoding
                    crate::affine::lemma_affine256_compose_apply(
                        min_encoding,
                        key0_affine,
                        min_total,
                        p,
                        q,
                    );
                    assert(affine256_apply_spec(min_total.lin@, min_total.bias@, p)
                        == gf2::byte_bits(q)) by {
                        gf2::lemma_ident_apply(256, gf2::byte_bits(q));
                        assert forall|j: int|
                            0 <= j < 256 implies !gf2::byte_bits(min_encoding.bias@)[j] by {
                            assert(0 <= j / 8 < 32 && 0 <= j % 8 < 8) by (nonlinear_arith)
                                requires
                                    0 <= j < 256,
                            ;
                            gf2::lemma_u8_bits_zero();
                            assert(gf2::u8_bits(0)[j % 8] == gf2::zero_vec(8)[j % 8]);
                        }
                        assert(affine256_apply_spec(min_encoding.lin@, min_encoding.bias@, q)
                            =~= gf2::byte_bits(q));
                    }
                    crate::affine::lemma_affine256_compose_apply(
                        a1_inv,
                        min_total,
                        input_encoding,
                        p,
                        q,
                    );
                    assert(gf2::byte_bits(s0) == affine256_apply_spec(a1_inv.lin@, a1_inv.bias@, q));
                    // applying the first encoding recovers q
                    assert(gf2::byte_bits(a1.bias@) == gf2::mat_apply(
                        a1.lin@,
                        gf2::byte_bits(a1_inv.bias@),
                    )) by {
                        gf2::lemma_inverse_cancels(
                            a1_inv.lin@,
                            a1.lin@,
                            256,
                            gf2::byte_bits(a1.bias@),
                        );
                    }
                    crate::affine::lemma_affine256_roundtrip(a1_inv, a1, q, s0);
                    assert(affine256_apply_spec(a1.lin@, a1.bias@, s0) == gf2::byte_bits(q));
                    // so the state entering round 0 is the encoding of the
                    // true initial state
                    gf2::lemma_bytes_from_bits_id(q);
                    assert(key0_block@ == dup_key_spec(keys[0]));
                    assert(q == wb_state_spec(keys, p, 0));
                    assert(gf2::bytes_from_bits(affine256_apply_spec(encs[0].lin@, encs[0].bias@, s0))
                        == wb_state_spec(keys, p, 0));
                    // compose the ten rounds
                    assert(s0.len() == 32);
                    lemma_rounds_compose(
                        inst.rounds@,
                        encs,
                        nexts,
                        mc_sr@,
                        sr_only@,
                        keys,
                        p,
                        s0,
                        0,
                    );
                    // split into the two AES halves
                    lemma_wb_state_halves(keys, p, 10);
                    crate::cipher::lemma_encrypt_as_states(keys, p.subrange(0, 16));
                    crate::cipher::lemma_encrypt_as_states(keys, p.subrange(16, 32));
                    assert(keys == crate::cipher::round_keys_spec(key@));
                    assert(wb_state_spec(keys, p, 10) =~= crate::cipher::encrypt_block_spec(
                        keys,
                        p.subrange(0, 16),
                    ) + crate::cipher::encrypt_block_spec(keys, p.subrange(16, 32)));
                    assert(crate::runtime::evaluate_spec(inst, p) == crate::runtime::rounds_eval_spec(
                        inst.rounds@,
                        s0,
                        0,
                    ));
                }
                assert forall|p: Seq<u8>| p.len() == 32 implies #[trigger] affine256_apply_spec(
                    a1.lin@,
                    a1.bias@,
                    crate::runtime::affine_apply_bytes(inst.encodings.input, p),
                ) == gf2::byte_bits(
                    gf2::bytes_xor(
                        p,
                        dup_key_spec(crate::cipher::round_keys_spec(key@)[0]),
                    ),
                ) by {
                    assert(crate::runtime::evaluate_spec(inst, p)
                        == crate::cipher::encrypt_block_spec(
                        crate::cipher::round_keys_spec(key@),
                        p.subrange(0, 16),
                    ) + crate::cipher::encrypt_block_spec(
                        crate::cipher::round_keys_spec(key@),
                        p.subrange(16, 32),
                    ));
                }
                assert(input_encoding_decodes(
                    inst.encodings.input,
                    a1,
                    crate::cipher::round_keys_spec(key@),
                ));
                gf2::lemma_mat_mul_ident(gf2::ident_mat(256), 256);
                gf2::lemma_mat_mul_ident(a1_inv.lin@, 256);
                assert(min_total.lin@ == gf2::ident_mat(256));
                assert(inst.encodings.input.lin@ == a1_inv.lin@);
                assert(gf2::wf_mat(a1.lin@, 256, 256));
                assert(gf2::invertible(inst.encodings.input.lin@, 256));
            }
        }
        Ok(inst)
    }
}

} // verus!
