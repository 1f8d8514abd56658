//! AES-128 key schedule and single-block encryption and decryption,
//! following FIPS-197. Every step is defined by a specification function
//! and the executable code is proved against it.

use vstd::prelude::*;

use crate::gf2;
use crate::key::{Aes128Key, RoundKeys};
use crate::round::{
    add_round_key, inv_mix_columns, inv_mix_columns_spec, inv_shift_rows, inv_shift_rows_spec,
    inv_sub_bytes, inv_sub_bytes_spec, mix_columns, mix_columns_spec, shift_rows, shift_rows_spec,
    sub_bytes, sub_bytes_spec,
};
use crate::sbox::{sbox, sbox_spec};

verus! {

broadcast use crate::key::lemma_round_keys_shape;

/// The round constants of the key schedule.
pub open spec fn rcon_spec(i: int) -> u8 {
    if i == 0 {
        0x01
    } else if i == 1 {
        0x02
    } else if i == 2 {
        0x04
    } else if i == 3 {
        0x08
    } else if i == 4 {
        0x10
    } else if i == 5 {
        0x20
    } else if i == 6 {
        0x40
    } else if i == 7 {
        0x80
    } else if i == 8 {
        0x1b
    } else {
        0x36
    }
}

/// A big-endian 32-bit word from four bytes.
pub open spec fn be_word_spec(b0: u8, b1: u8, b2: u8, b3: u8) -> u32 {
    ((b0 as u32) << 24) | ((b1 as u32) << 16) | ((b2 as u32) << 8) | (b3 as u32)
}

/// Rotates a word left by one byte.
pub open spec fn rot_word_spec(w: u32) -> u32 {
    (w << 8) | (w >> 24)
}

/// The S-box applied to each byte of a word.
pub open spec fn sub_word_spec(w: u32) -> u32 {
    ((sbox_spec(((w >> 24) & 0xff) as u8) as u32) << 24) | ((sbox_spec(
        ((w >> 16) & 0xff) as u8,
    ) as u32) << 16) | ((sbox_spec(((w >> 8) & 0xff) as u8) as u32) << 8) | (sbox_spec(
        (w & 0xff) as u8,
    ) as u32)
}

/// Word i of the expanded key schedule.
pub open spec fn key_word_spec(key: Seq<u8>, i: int) -> u32
    decreases i,
{
    if i < 4 {
        be_word_spec(key[4 * i], key[4 * i + 1], key[4 * i + 2], key[4 * i + 3])
    } else {
        let prev = key_word_spec(key, i - 1);
        let temp = if i % 4 == 0 {
            sub_word_spec(rot_word_spec(prev)) ^ ((rcon_spec(i / 4 - 1) as u32) << 24)
        } else {
            prev
        };
        key_word_spec(key, i - 4) ^ temp
    }
}

/// Byte j of round key r: the bytes of words 4r..4r+4, big-endian.
pub open spec fn round_key_byte_spec(key: Seq<u8>, r: int, j: int) -> u8 {
    let w = key_word_spec(key, 4 * r + j / 4);
    ((w >> ((24 - 8 * (j % 4)) as u32)) & 0xff) as u8
}

/// The eleven round keys of the schedule, as byte sequences.
pub open spec fn round_keys_spec(key: Seq<u8>) -> Seq<Seq<u8>> {
    Seq::new(11, |r: int| Seq::new(16, |j: int| round_key_byte_spec(key, r, j)))
}

/// The state after encryption rounds 0..=r, built forward: AddRoundKey,
/// then full rounds, the last omitting MixColumns.
pub open spec fn aes_state_spec(keys: Seq<Seq<u8>>, h: Seq<u8>, r: int) -> Seq<u8>
    decreases r,
{
    if r <= 0 {
        gf2::bytes_xor(h, keys[0])
    } else if r < 10 {
        gf2::bytes_xor(
            mix_columns_spec(shift_rows_spec(sub_bytes_spec(aes_state_spec(keys, h, r - 1)))),
            keys[r],
        )
    } else {
        gf2::bytes_xor(shift_rows_spec(sub_bytes_spec(aes_state_spec(keys, h, r - 1))), keys[10])
    }
}

/// The continuation form of the rounds, started from a forward state,
/// reaches the final forward state.
proof fn lemma_enc_rounds_states(keys: Seq<Seq<u8>>, h: Seq<u8>, r: int)
    requires
        1 <= r <= 10,
    ensures
        enc_rounds_spec(keys, aes_state_spec(keys, h, r - 1), r) == aes_state_spec(keys, h, 10),
    decreases 10 - r,
{
    if r < 10 {
        lemma_enc_rounds_states(keys, h, r + 1);
    }
}

/// Block encryption equals the forward state after the last round.
pub proof fn lemma_encrypt_as_states(keys: Seq<Seq<u8>>, h: Seq<u8>)
    ensures
        encrypt_block_spec(keys, h) == aes_state_spec(keys, h, 10),
{
    lemma_enc_rounds_states(keys, h, 1);
}

/// The state after running encryption rounds r..10.
pub open spec fn enc_rounds_spec(keys: Seq<Seq<u8>>, state: Seq<u8>, r: int) -> Seq<u8>
    decreases 10 - r,
{
    if r >= 10 {
        gf2::bytes_xor(shift_rows_spec(sub_bytes_spec(state)), keys[10])
    } else {
        enc_rounds_spec(
            keys,
            gf2::bytes_xor(mix_columns_spec(shift_rows_spec(sub_bytes_spec(state))), keys[r]),
            r + 1,
        )
    }
}

/// AES-128 encryption of one 16-byte block with expanded round keys.
pub open spec fn encrypt_block_spec(keys: Seq<Seq<u8>>, block: Seq<u8>) -> Seq<u8> {
    enc_rounds_spec(keys, gf2::bytes_xor(block, keys[0]), 1)
}

/// The state after undoing encryption rounds r..1.
pub open spec fn dec_rounds_spec(keys: Seq<Seq<u8>>, state: Seq<u8>, r: int) -> Seq<u8>
    decreases r,
{
    if r <= 0 {
        gf2::bytes_xor(inv_sub_bytes_spec(inv_shift_rows_spec(state)), keys[0])
    } else {
        dec_rounds_spec(
            keys,
            inv_mix_columns_spec(
                gf2::bytes_xor(inv_sub_bytes_spec(inv_shift_rows_spec(state)), keys[r]),
            ),
            r - 1,
        )
    }
}

/// AES-128 decryption of one 16-byte block with expanded round keys.
pub open spec fn decrypt_block_spec(keys: Seq<Seq<u8>>, block: Seq<u8>) -> Seq<u8> {
    dec_rounds_spec(keys, gf2::bytes_xor(block, keys[10]), 9)
}

/// Builds a big-endian word from four bytes.
fn u32_from_be(b0: u8, b1: u8, b2: u8, b3: u8) -> (r: u32)
    ensures
        r == be_word_spec(b0, b1, b2, b3),
{
    ((b0 as u32) << 24u32) | ((b1 as u32) << 16u32) | ((b2 as u32) << 8u32) | (b3 as u32)
}

/// Rotates a word left by one byte.
fn rot_word(w: u32) -> (r: u32)
    ensures
        r == rot_word_spec(w),
{
    (w << 8u32) | (w >> 24u32)
}

/// The S-box applied to each byte of a word.
fn sub_word(w: u32) -> (r: u32)
    ensures
        r == sub_word_spec(w),
{
    proof {
        assert((w >> 24u32) & 0xff < 256 && (w >> 16u32) & 0xff < 256 && (w >> 8u32) & 0xff < 256
            && w & 0xff < 256) by (bit_vector);
    }
    let b0 = sbox(((w >> 24u32) & 0xff) as u8);
    let b1 = sbox(((w >> 16u32) & 0xff) as u8);
    let b2 = sbox(((w >> 8u32) & 0xff) as u8);
    let b3 = sbox((w & 0xff) as u8);
    ((b0 as u32) << 24u32) | ((b1 as u32) << 16u32) | ((b2 as u32) << 8u32) | (b3 as u32)
}

/// The round constant for iteration i of the schedule.
fn rcon(i: usize) -> (r: u8)
    requires
        i < 10,
    ensures
        r == rcon_spec(i as int),
{
    if i == 0 {
        0x01
    } else if i == 1 {
        0x02
    } else if i == 2 {
        0x04
    } else if i == 3 {
        0x08
    } else if i == 4 {
        0x10
    } else if i == 5 {
        0x20
    } else if i == 6 {
        0x40
    } else if i == 7 {
        0x80
    } else if i == 8 {
        0x1b
    } else {
        0x36
    }
}

/// Expands a 128-bit key into eleven round keys.
pub fn expand_key(key: &Aes128Key) -> (r: RoundKeys)
    requires
        key.wf(),
    ensures
        r.wf(),
        forall|t: int, j: int|
            0 <= t < 11 && 0 <= j < 16 ==> r@[t][j] == round_key_byte_spec(key@, t, j),
        r@ == round_keys_spec(key@),
{
    let kb = key.bytes();
    let mut w: Vec<u32> = Vec::new();
    for i in 0..4usize
        invariant
            key.wf(),
            kb@ == key@,
            w@.len() == i,
            forall|t: int| 0 <= t < i ==> w@[t] == key_word_spec(key@, t),
    {
        let word = u32_from_be(kb[4 * i], kb[4 * i + 1], kb[4 * i + 2], kb[4 * i + 3]);
        w.push(word);
    }
    for i in 4..44usize
        invariant
            key.wf(),
            w@.len() == i,
            forall|t: int| 0 <= t < i ==> w@[t] == key_word_spec(key@, t),
    {
        let mut temp = w[i - 1];
        if i % 4 == 0 {
            temp = sub_word(rot_word(temp)) ^ ((rcon(i / 4 - 1) as u32) << 24u32);
        }
        let word = w[i - 4] ^ temp;
        w.push(word);
    }
    let mut keys: Vec<u8> = Vec::new();
    for i in 0..44usize
        invariant
            w@.len() == 44,
            forall|t: int| 0 <= t < 44 ==> w@[t] == key_word_spec(key@, t),
            keys@.len() == 4 * i,
            forall|t: int, b: int|
                0 <= t < i && 0 <= b < 4 ==> #[trigger] keys@[4 * t + b] == (((w@[t] >> (((3 - b)
                    * 8) as u32)) & 0xff) as u8),
    {
        let word = w[i];
        proof {
            assert((word >> 24u32) & 0xff < 256 && (word >> 16u32) & 0xff < 256 && (word >> 8u32)
                & 0xff < 256 && word & 0xff < 256) by (bit_vector);
            assert(word >> 0u32 == word) by (bit_vector);
        }
        keys.push(((word >> 24u32) & 0xff) as u8);
        keys.push(((word >> 16u32) & 0xff) as u8);
        keys.push(((word >> 8u32) & 0xff) as u8);
        keys.push((word & 0xff) as u8);
    }
    let r = RoundKeys::from_flat(keys);
    proof {
        assert forall|t: int, j: int| 0 <= t < 11 && 0 <= j < 16 implies r@[t][j]
            == round_key_byte_spec(key@, t, j) by {
            assert(0 <= j / 4 < 4 && 0 <= j % 4 < 4 && j == 4 * (j / 4) + j % 4)
                by (nonlinear_arith)
                requires
                    0 <= j < 16,
            ;
            let wi = 4 * t + j / 4;
            let b = j % 4;
            assert(16 * t + j == 4 * wi + b);
            assert(keys@[4 * wi + b] == (((w@[wi] >> (((3 - b) * 8) as u32)) & 0xff) as u8));
        }
        assert forall|t: int| 0 <= t < 11 implies #[trigger] r@[t] == round_keys_spec(key@)[t] by {
            assert forall|j: int| 0 <= j < 16 implies #[trigger] r@[t][j] == round_keys_spec(
                key@,
            )[t][j] by {
                assert(r@[t][j] == round_key_byte_spec(key@, t, j));
            }
            assert(r@[t] =~= round_keys_spec(key@)[t]);
        }
        assert(r@ =~= round_keys_spec(key@));
    }
    r
}

/// Encrypts a single 16-byte block with pre-expanded round keys.
pub fn encrypt_block(block: &Vec<u8>, round_keys: &RoundKeys) -> (r: Vec<u8>)
    requires
        block@.len() == 16,
        round_keys.wf(),
    ensures
        r@.len() == 16,
        r@ == encrypt_block_spec(round_keys@, block@),
{
    let mut state = crate::block::copy_bytes(block);
    let k0 = round_keys.get(0);
    add_round_key(&mut state, &k0);
    for rnd in 1..10usize
        invariant
            round_keys.wf(),
            state@.len() == 16,
            encrypt_block_spec(round_keys@, block@) == enc_rounds_spec(
                round_keys@,
                state@,
                rnd as int,
            ),
    {
        sub_bytes(&mut state);
        shift_rows(&mut state);
        mix_columns(&mut state);
        let krnd = round_keys.get(rnd);
        add_round_key(&mut state, &krnd);
    }
    sub_bytes(&mut state);
    shift_rows(&mut state);
    let k10 = round_keys.get(10);
    add_round_key(&mut state, &k10);
    state
}

/// Decrypts a single 16-byte block with pre-expanded round keys.
pub fn decrypt_block(block: &Vec<u8>, round_keys: &RoundKeys) -> (r: Vec<u8>)
    requires
        block@.len() == 16,
        round_keys.wf(),
    ensures
        r@.len() == 16,
        r@ == decrypt_block_spec(round_keys@, block@),
{
    let mut state = crate::block::copy_bytes(block);
    let k10 = round_keys.get(10);
    add_round_key(&mut state, &k10);
    for step in 0..9usize
        invariant
            round_keys.wf(),
            state@.len() == 16,
            decrypt_block_spec(round_keys@, block@) == dec_rounds_spec(
                round_keys@,
                state@,
                9 - step as int,
            ),
    {
        let rnd = 9 - step;
        inv_shift_rows(&mut state);
        inv_sub_bytes(&mut state);
        let krnd = round_keys.get(rnd);
        add_round_key(&mut state, &krnd);
        inv_mix_columns(&mut state);
    }
    inv_shift_rows(&mut state);
    inv_sub_bytes(&mut state);
    let k0 = round_keys.get(0);
    add_round_key(&mut state, &k0);
    state
}

} // verus!
