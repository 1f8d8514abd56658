//! AES round transformations on a 16-byte state.
//!
//! The state is column-major as in FIPS-197: byte `4c + r` holds row r of
//! column c. Each transformation has a specification function that defines
//! it and an executable function proved against it.

use vstd::prelude::*;

use crate::gf2;
use crate::sbox::{inv_sbox, inv_sbox_spec, sbox, sbox_spec};

verus! {

/// SubBytes: the forward S-box applied to every byte.
pub open spec fn sub_bytes_spec(s: Seq<u8>) -> Seq<u8> {
    Seq::new(s.len(), |i: int| sbox_spec(s[i]))
}

/// Inverse SubBytes: the inverse S-box applied to every byte.
pub open spec fn inv_sub_bytes_spec(s: Seq<u8>) -> Seq<u8> {
    Seq::new(s.len(), |i: int| inv_sbox_spec(s[i]))
}

/// ShiftRows: row r of the column-major state rotates left by r.
pub open spec fn shift_rows_spec(s: Seq<u8>) -> Seq<u8> {
    seq![
        s[0],
        s[5],
        s[10],
        s[15],
        s[4],
        s[9],
        s[14],
        s[3],
        s[8],
        s[13],
        s[2],
        s[7],
        s[12],
        s[1],
        s[6],
        s[11],
    ]
}

/// Inverse ShiftRows: row r rotates right by r.
pub open spec fn inv_shift_rows_spec(s: Seq<u8>) -> Seq<u8> {
    seq![
        s[0],
        s[13],
        s[10],
        s[7],
        s[4],
        s[1],
        s[14],
        s[11],
        s[8],
        s[5],
        s[2],
        s[15],
        s[12],
        s[9],
        s[6],
        s[3],
    ]
}

/// Doubling in GF(2^8) modulo the AES polynomial.
pub open spec fn xtime_spec(b: u8) -> u8 {
    if b & 0x80 != 0 {
        (b << 1) ^ 0x1b
    } else {
        b << 1
    }
}

/// Multiplication in GF(2^8), as k shift-and-add steps on b.
pub open spec fn gmul_spec(a: u8, b: u8, k: nat) -> u8
    decreases k,
{
    if k == 0 {
        0
    } else {
        (if b & 1 == 1 {
            a
        } else {
            0
        }) ^ gmul_spec(xtime_spec(a), b >> 1, (k - 1) as nat)
    }
}

/// Row r of one mixed column with input bytes a0..a3.
pub open spec fn mix_col_spec(a0: u8, a1: u8, a2: u8, a3: u8, r: int) -> u8 {
    if r == 0 {
        xtime_spec(a0) ^ (xtime_spec(a1) ^ a1) ^ a2 ^ a3
    } else if r == 1 {
        a0 ^ xtime_spec(a1) ^ (xtime_spec(a2) ^ a2) ^ a3
    } else if r == 2 {
        a0 ^ a1 ^ xtime_spec(a2) ^ (xtime_spec(a3) ^ a3)
    } else {
        (xtime_spec(a0) ^ a0) ^ a1 ^ a2 ^ xtime_spec(a3)
    }
}

/// MixColumns over all four columns.
pub open spec fn mix_columns_spec(s: Seq<u8>) -> Seq<u8> {
    Seq::new(
        16,
        |i: int|
            mix_col_spec(
                s[4 * (i / 4)],
                s[4 * (i / 4) + 1],
                s[4 * (i / 4) + 2],
                s[4 * (i / 4) + 3],
                i % 4,
            ),
    )
}

/// Row r of one inverse-mixed column with input bytes a0..a3.
pub open spec fn inv_mix_col_spec(a0: u8, a1: u8, a2: u8, a3: u8, r: int) -> u8 {
    if r == 0 {
        gmul_spec(a0, 0x0e, 8) ^ gmul_spec(a1, 0x0b, 8) ^ gmul_spec(a2, 0x0d, 8) ^ gmul_spec(
            a3,
            0x09,
            8,
        )
    } else if r == 1 {
        gmul_spec(a0, 0x09, 8) ^ gmul_spec(a1, 0x0e, 8) ^ gmul_spec(a2, 0x0b, 8) ^ gmul_spec(
            a3,
            0x0d,
            8,
        )
    } else if r == 2 {
        gmul_spec(a0, 0x0d, 8) ^ gmul_spec(a1, 0x09, 8) ^ gmul_spec(a2, 0x0e, 8) ^ gmul_spec(
            a3,
            0x0b,
            8,
        )
    } else {
        gmul_spec(a0, 0x0b, 8) ^ gmul_spec(a1, 0x0d, 8) ^ gmul_spec(a2, 0x09, 8) ^ gmul_spec(
            a3,
            0x0e,
            8,
        )
    }
}

/// Inverse MixColumns over all four columns.
pub open spec fn inv_mix_columns_spec(s: Seq<u8>) -> Seq<u8> {
    Seq::new(
        16,
        |i: int|
            inv_mix_col_spec(
                s[4 * (i / 4)],
                s[4 * (i / 4) + 1],
                s[4 * (i / 4) + 2],
                s[4 * (i / 4) + 3],
                i % 4,
            ),
    )
}

/// Applies SubBytes to the state in place.
pub fn sub_bytes(state: &mut Vec<u8>)
    requires
        old(state)@.len() == 16,
    ensures
        final(state)@ == sub_bytes_spec(old(state)@),
{
    for i in 0..16usize
        invariant
            state@.len() == 16,
            forall|t: int| 0 <= t < i ==> state@[t] == sbox_spec(old(state)@[t]),
            forall|t: int| i <= t < 16 ==> state@[t] == old(state)@[t],
    {
        let b = sbox(state[i]);
        state.set(i, b);
    }
    proof {
        assert(state@ =~= sub_bytes_spec(old(state)@));
    }
}

/// Applies the inverse SubBytes transformation in place.
pub fn inv_sub_bytes(state: &mut Vec<u8>)
    requires
        old(state)@.len() == 16,
    ensures
        final(state)@ == inv_sub_bytes_spec(old(state)@),
{
    for i in 0..16usize
        invariant
            state@.len() == 16,
            forall|t: int| 0 <= t < i ==> state@[t] == inv_sbox_spec(old(state)@[t]),
            forall|t: int| i <= t < 16 ==> state@[t] == old(state)@[t],
    {
        let b = inv_sbox(state[i]);
        state.set(i, b);
    }
    proof {
        assert(state@ =~= inv_sub_bytes_spec(old(state)@));
    }
}

/// Performs ShiftRows in place.
pub fn shift_rows(state: &mut Vec<u8>)
    requires
        old(state)@.len() == 16,
    ensures
        final(state)@ == shift_rows_spec(old(state)@),
{
    let mut tmp: Vec<u8> = Vec::new();
    tmp.push(state[0]);
    tmp.push(state[5]);
    tmp.push(state[10]);
    tmp.push(state[15]);
    tmp.push(state[4]);
    tmp.push(state[9]);
    tmp.push(state[14]);
    tmp.push(state[3]);
    tmp.push(state[8]);
    tmp.push(state[13]);
    tmp.push(state[2]);
    tmp.push(state[7]);
    tmp.push(state[12]);
    tmp.push(state[1]);
    tmp.push(state[6]);
    tmp.push(state[11]);
    *state = tmp;
    proof {
        assert(state@ =~= shift_rows_spec(old(state)@));
    }
}

/// Performs the inverse of ShiftRows in place.
pub fn inv_shift_rows(state: &mut Vec<u8>)
    requires
        old(state)@.len() == 16,
    ensures
        final(state)@ == inv_shift_rows_spec(old(state)@),
{
    let mut tmp: Vec<u8> = Vec::new();
    tmp.push(state[0]);
    tmp.push(state[13]);
    tmp.push(state[10]);
    tmp.push(state[7]);
    tmp.push(state[4]);
    tmp.push(state[1]);
    tmp.push(state[14]);
    tmp.push(state[11]);
    tmp.push(state[8]);
    tmp.push(state[5]);
    tmp.push(state[2]);
    tmp.push(state[15]);
    tmp.push(state[12]);
    tmp.push(state[9]);
    tmp.push(state[6]);
    tmp.push(state[3]);
    *state = tmp;
    proof {
        assert(state@ =~= inv_shift_rows_spec(old(state)@));
    }
}

/// Doubles a field element.
pub fn xtime(b: u8) -> (r: u8)
    ensures
        r == xtime_spec(b),
{
    let shifted = b << 1u8;
    if b & 0x80 != 0 {
        shifted ^ 0x1b
    } else {
        shifted
    }
}

/// Multiplies two field elements.
pub fn gmul(a: u8, b: u8) -> (r: u8)
    ensures
        r == gmul_spec(a, b, 8),
{
    let mut product: u8 = 0;
    let mut aa = a;
    let mut bb = b;
    proof {
        gf2::lemma_u8_xor_zero(gmul_spec(a, b, 8));
    }
    for i in 0..8usize
        invariant
            gmul_spec(a, b, 8) == product ^ gmul_spec(aa, bb, (8 - i) as nat),
    {
        let ghost p0 = product;
        let ghost a0 = aa;
        let ghost b0 = bb;
        if bb & 1 == 1 {
            product = product ^ aa;
        }
        aa = xtime(aa);
        bb = bb >> 1u8;
        proof {
            let rest = gmul_spec(xtime_spec(a0), b0 >> 1, (7 - i) as nat);
            assert(gmul_spec(a0, b0, (8 - i) as nat) == (if b0 & 1 == 1 {
                a0
            } else {
                0
            }) ^ rest);
            if b0 & 1 == 1 {
                gf2::lemma_u8_xor_assoc(p0, a0, rest);
            } else {
                gf2::lemma_u8_xor_zero(rest);
            }
        }
    }
    proof {
        gf2::lemma_u8_xor_zero(product);
    }
    product
}

/// MixColumns over all four columns, in place.
pub fn mix_columns(state: &mut Vec<u8>)
    requires
        old(state)@.len() == 16,
    ensures
        final(state)@ == mix_columns_spec(old(state)@),
{
    for col in 0..4usize
        invariant
            state@.len() == 16,
            forall|t: int| 0 <= t < 4 * col ==> state@[t] == mix_columns_spec(old(state)@)[t],
            forall|t: int| 4 * col <= t < 16 ==> state@[t] == old(state)@[t],
    {
        let idx = col * 4;
        let a0 = state[idx];
        let a1 = state[idx + 1];
        let a2 = state[idx + 2];
        let a3 = state[idx + 3];
        let r0 = xtime(a0) ^ (xtime(a1) ^ a1) ^ a2 ^ a3;
        let r1 = a0 ^ xtime(a1) ^ (xtime(a2) ^ a2) ^ a3;
        let r2 = a0 ^ a1 ^ xtime(a2) ^ (xtime(a3) ^ a3);
        let r3 = (xtime(a0) ^ a0) ^ a1 ^ a2 ^ xtime(a3);
        state.set(idx, r0);
        state.set(idx + 1, r1);
        state.set(idx + 2, r2);
        state.set(idx + 3, r3);
        proof {
            assert forall|t: int| 4 * col <= t < 4 * col + 4 implies state@[t] == mix_columns_spec(
                old(state)@,
            )[t] by {
                assert(t / 4 == col && t % 4 == t - 4 * col) by (nonlinear_arith)
                    requires
                        4 * col <= t < 4 * col + 4,
                        0 <= col < 4,
                ;
            }
        }
    }
    proof {
        assert(state@ =~= mix_columns_spec(old(state)@));
    }
}

/// Inverse MixColumns over all four columns, in place.
pub fn inv_mix_columns(state: &mut Vec<u8>)
    requires
        old(state)@.len() == 16,
    ensures
        final(state)@ == inv_mix_columns_spec(old(state)@),
{
    for col in 0..4usize
        invariant
            state@.len() == 16,
            forall|t: int| 0 <= t < 4 * col ==> state@[t] == inv_mix_columns_spec(old(state)@)[t],
            forall|t: int| 4 * col <= t < 16 ==> state@[t] == old(state)@[t],
    {
        let idx = col * 4;
        let a0 = state[idx];
        let a1 = state[idx + 1];
        let a2 = state[idx + 2];
        let a3 = state[idx + 3];
        let r0 = gmul(a0, 0x0e) ^ gmul(a1, 0x0b) ^ gmul(a2, 0x0d) ^ gmul(a3, 0x09);
        let r1 = gmul(a0, 0x09) ^ gmul(a1, 0x0e) ^ gmul(a2, 0x0b) ^ gmul(a3, 0x0d);
        let r2 = gmul(a0, 0x0d) ^ gmul(a1, 0x09) ^ gmul(a2, 0x0e) ^ gmul(a3, 0x0b);
        let r3 = gmul(a0, 0x0b) ^ gmul(a1, 0x0d) ^ gmul(a2, 0x09) ^ gmul(a3, 0x0e);
        state.set(idx, r0);
        state.set(idx + 1, r1);
        state.set(idx + 2, r2);
        state.set(idx + 3, r3);
        proof {
            assert forall|t: int| 4 * col <= t < 4 * col + 4 implies state@[t]
                == inv_mix_columns_spec(old(state)@)[t] by {
                assert(t / 4 == col && t % 4 == t - 4 * col) by (nonlinear_arith)
                    requires
                        4 * col <= t < 4 * col + 4,
                        0 <= col < 4,
                ;
            }
        }
    }
    proof {
        assert(state@ =~= inv_mix_columns_spec(old(state)@));
    }
}

/// Adds (XORs) a round key into the state.
pub fn add_round_key(state: &mut Vec<u8>, round_key: &Vec<u8>)
    requires
        old(state)@.len() == round_key@.len(),
    ensures
        final(state)@ == gf2::bytes_xor(old(state)@, round_key@),
{
    crate::block::xor_in_place(state, round_key);
}

} // verus!
