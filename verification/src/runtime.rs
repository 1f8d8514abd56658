//! Runtime evaluator for generated white-box instances.
//!
//! Evaluation applies the input encoding, then for each of the ten rounds
//! reads the state bytes pairwise and XORs the 32 looked-up 32-byte
//! entries, and finally applies the output encoding when one is present.
//! The contract of `encrypt_block` pins the result to this definition.

use vstd::prelude::*;

use crate::affine::{affine256_apply_spec, Affine256};
use crate::block::zero_bytes;
use crate::cipher::{decrypt_block, decrypt_block_spec};
use crate::errors::WbError;
use crate::gf2;
use crate::instance::WbInstance256;
use crate::key::RoundKeys;
use crate::tables::RoundTables;

verus! {

/// The XOR of the first n table contributions on state s.
pub open spec fn round_xor_spec(rt: RoundTables, s: Seq<u8>, n: int) -> Seq<u8>
    decreases n,
{
    if n <= 0 {
        Seq::new(32, |t: int| 0u8)
    } else {
        gf2::bytes_xor(
            round_xor_spec(rt, s, n - 1),
            rt.tables@[n - 1].entry(
                s[n - 1],
                s[if n == 32 {
                    0int
                } else {
                    n
                }],
            ),
        )
    }
}

/// A partial round XOR always spans 32 bytes.
pub proof fn lemma_round_xor_len(rt: RoundTables, s: Seq<u8>, n: int)
    ensures
        round_xor_spec(rt, s, n).len() == 32,
    decreases n,
{
    if n > 0 {
        lemma_round_xor_len(rt, s, n - 1);
    }
}

/// One round of table lookups: position i contributes the entry for the
/// state bytes at i and i+1 (mod 32), and the 32 entries XOR together.
pub open spec fn round_eval_spec(rt: RoundTables, s: Seq<u8>) -> Seq<u8> {
    round_xor_spec(rt, s, 32)
}

/// The state after running rounds r..10.
pub open spec fn rounds_eval_spec(rounds: Seq<RoundTables>, s: Seq<u8>, r: int) -> Seq<u8>
    decreases 10 - r,
{
    if r >= 10 {
        s
    } else {
        rounds_eval_spec(rounds, round_eval_spec(rounds[r], s), r + 1)
    }
}

/// The 32-byte output of an affine map, as bytes.
pub open spec fn affine_apply_bytes(a: Affine256, x: Seq<u8>) -> Seq<u8> {
    gf2::bytes_from_bits(affine256_apply_spec(a.lin@, a.bias@, x))
}

/// What evaluating an instance on a 32-byte block yields: the input
/// encoding, ten rounds of XORed table lookups, and the output encoding
/// when present.
pub open spec fn evaluate_spec(inst: WbInstance256, p: Seq<u8>) -> Seq<u8> {
    let s0 = affine_apply_bytes(inst.encodings.input, p);
    let sn = rounds_eval_spec(inst.rounds@, s0, 0);
    match inst.encodings.output {
        Some(o) => affine_apply_bytes(o, sn),
        None => sn,
    }
}

/// Runtime evaluator wrapping an immutable instance. Evaluation does not
/// mutate the instance, so one cipher may serve any number of callers.
pub struct WbCipher256 {
    /// The instance being evaluated.
    pub instance: WbInstance256,
}

impl WbCipher256 {
    /// The held instance is well formed.
    pub open spec fn wf(&self) -> bool {
        self.instance.wf()
    }

    /// Wraps an instance for evaluation.
    pub fn new(instance: WbInstance256) -> (r: WbCipher256)
        ensures
            r.instance == instance,
    {
        WbCipher256 { instance }
    }

    /// Encrypts one 32-byte block in place.
    pub fn encrypt_block(&self, block: &mut Vec<u8>)
        requires
            self.wf(),
            old(block)@.len() == 32,
        ensures
            final(block)@.len() == 32,
            final(block)@ == evaluate_spec(self.instance, old(block)@),
    {
        let ghost rounds = self.instance.rounds@;
        let mut s = self.instance.encodings.input.apply(block);
        proof {
            gf2::lemma_bytes_from_bits_id(s@);
            assert(s@ == affine_apply_bytes(self.instance.encodings.input, old(block)@));
        }
        let ghost s0 = s@;
        for r in 0..10usize
            invariant
                self.wf(),
                rounds == self.instance.rounds@,
                s0 == affine_apply_bytes(self.instance.encodings.input, old(block)@),
                s@.len() == 32,
                rounds_eval_spec(rounds, s@, r as int) == rounds_eval_spec(rounds, s0, 0),
        {
            let mut acc = zero_bytes(32);
            let ghost s_in = s@;
            proof {
                assert(acc@ =~= round_xor_spec(rounds[r as int], s_in, 0));
            }
            for i in 0..32usize
                invariant
                    self.wf(),
                    rounds == self.instance.rounds@,
                    r < 10,
                    s@ == s_in,
                    s@.len() == 32,
                    acc@.len() == 32,
                    acc@ == round_xor_spec(rounds[r as int], s_in, i as int),
            {
                let x = s[i];
                let ni = if i == 31 {
                    0
                } else {
                    i + 1
                };
                let y = s[ni];
                let e = self.instance.rounds[r].tables[i].get(x, y);
                crate::block::xor_in_place(&mut acc, &e);
            }
            s = acc;
            proof {
                assert(s@ == round_eval_spec(rounds[r as int], s_in));
            }
        }
        proof {
            assert(rounds_eval_spec(rounds, s@, 10) == s@);
        }
        match &self.instance.encodings.output {
            Some(o) => {
                o.apply_in_place(&mut s);
                proof {
                    gf2::lemma_bytes_from_bits_id(s@);
                }
            },
            None => {},
        }
        *block = s;
    }

    /// Encrypts a buffer of consecutive 32-byte blocks in place. A buffer
    /// whose length is not a multiple of 32 bytes is rejected unchanged.
    pub fn encrypt_blocks(&self, data: &mut Vec<u8>) -> (r: Result<(), WbError>)
        requires
            self.wf(),
        ensures
            match r {
                Ok(()) => {
                    &&& old(data)@.len() % 32 == 0
                    &&& final(data)@.len() == old(data)@.len()
                    &&& forall|c: int|
                        0 <= c < old(data)@.len() / 32 ==> #[trigger] final(data)@.subrange(
                            32 * c,
                            32 * c + 32,
                        ) == evaluate_spec(
                            self.instance,
                            old(data)@.subrange(32 * c, 32 * c + 32),
                        )
                },
                Err(e) => {
                    &&& e == WbError::InputLengthMismatch
                    &&& old(data)@.len() % 32 != 0
                    &&& final(data)@ == old(data)@
                },
            },
    {
        let n = data.len();
        if n % 32 != 0 {
            return Err(WbError::InputLengthMismatch);
        }
        let chunks = n / 32;
        for c in 0..chunks
            invariant
                self.wf(),
                data@.len() == n,
                old(data)@.len() == n,
                n % 32 == 0,
                chunks == n as int / 32,
                forall|t: int| 32 * c <= t < n ==> #[trigger] data@[t] == old(data)@[t],
                forall|c2: int|
                    0 <= c2 < c ==> #[trigger] data@.subrange(32 * c2, 32 * c2 + 32)
                        == evaluate_spec(
                        self.instance,
                        old(data)@.subrange(32 * c2, 32 * c2 + 32),
                    ),
        {
            proof {
                assert(32 * c + 32 <= n) by (nonlinear_arith)
                    requires
                        0 <= c < n as int / 32,
                        n % 32 == 0,
                        n >= 0,
                ;
            }
            let mut blk = crate::block::slice_range(data, 32 * c, 32 * c + 32);
            proof {
                assert forall|t: int| 0 <= t < 32 implies blk@[t] == old(data)@[32 * (c as int)
                    + t] by {
                    assert(blk@[t] == data@[32 * (c as int) + t]);
                    assert(data@[32 * (c as int) + t] == old(data)@[32 * (c as int) + t]);
                }
                assert(blk@ =~= old(data)@.subrange(32 * (c as int), 32 * (c as int) + 32));
            }
            self.encrypt_block(&mut blk);
            let ghost data_snap = data@;
            for t in 0..32usize
                invariant
                    data@.len() == n,
                    data_snap.len() == n,
                    blk@.len() == 32,
                    c < chunks,
                    32 * c + 32 <= n,
                    forall|u: int|
                        0 <= u < n && !(32 * c <= u < 32 * c + t) ==> #[trigger] data@[u]
                            == data_snap[u],
                    forall|u: int|
                        0 <= u < t ==> #[trigger] data@[32 * (c as int) + u] == blk@[u],
            {
                data.set(32 * c + t, blk[t]);
            }
            proof {
                assert forall|t: int| 0 <= t < 32 implies #[trigger] data@.subrange(
                    32 * (c as int),
                    32 * (c as int) + 32,
                )[t] == blk@[t] by {
                    assert(data@[32 * (c as int) + t] == blk@[t]);
                }
                assert(data@.subrange(32 * (c as int), 32 * (c as int) + 32) =~= blk@);
                assert forall|c2: int| 0 <= c2 < c implies #[trigger] data@.subrange(
                    32 * c2,
                    32 * c2 + 32,
                ) == evaluate_spec(
                    self.instance,
                    old(data)@.subrange(32 * c2, 32 * c2 + 32),
                ) by {
                    assert forall|t: int| 0 <= t < 32 implies #[trigger] data@.subrange(
                        32 * c2,
                        32 * c2 + 32,
                    )[t] == data_snap.subrange(32 * c2, 32 * c2 + 32)[t] by {
                        assert(32 * c2 + t < 32 * (c as int));
                        assert(data@[32 * c2 + t] == data_snap[32 * c2 + t]);
                    }
                    assert(data@.subrange(32 * c2, 32 * c2 + 32) =~= data_snap.subrange(
                        32 * c2,
                        32 * c2 + 32,
                    ));
                }
            }
        }
        proof {
            assert forall|c2: int| 0 <= c2 < n as int / 32 implies #[trigger] data@.subrange(
                32 * c2,
                32 * c2 + 32,
            ) == evaluate_spec(self.instance, old(data)@.subrange(32 * c2, 32 * c2 + 32)) by {}
        }
        Ok(())
    }
}

/// Decrypts a buffer of consecutive 32-byte blocks in place with the AES
/// key schedule, each 16-byte half separately. An instance that still
/// carries an external output encoding cannot be decoded this way and is
/// rejected, as is a buffer whose length is not a multiple of 32 bytes;
/// either way the buffer is left unchanged.
pub fn decrypt_with_key(
    instance: &WbInstance256,
    round_keys: &RoundKeys,
    data: &mut Vec<u8>,
) -> (r: Result<(), WbError>)
    requires
        instance.wf(),
        round_keys.wf(),
    ensures
        match r {
            Ok(()) => {
                &&& instance.encodings.output is None
                &&& old(data)@.len() % 32 == 0
                &&& final(data)@.len() == old(data)@.len()
                &&& forall|h: int|
                    0 <= h < old(data)@.len() / 16 ==> #[trigger] final(data)@.subrange(
                        16 * h,
                        16 * h + 16,
                    ) == decrypt_block_spec(round_keys@, old(data)@.subrange(16 * h, 16 * h + 16))
            },
            Err(e) => {
                &&& final(data)@ == old(data)@
                &&& ((e == WbError::EncodingPrecondition && instance.encodings.output is Some) || (
                e == WbError::InputLengthMismatch && instance.encodings.output is None && old(
                    data,
                )@.len() % 32 != 0))
            },
        },
{
    match &instance.encodings.output {
        Some(_) => {
            return Err(WbError::EncodingPrecondition);
        },
        None => {},
    }
    let n = data.len();
    if n % 32 != 0 {
        return Err(WbError::InputLengthMismatch);
    }
    proof {
        assert(n % 16 == 0) by (nonlinear_arith)
            requires
                n % 32 == 0,
                n >= 0,
        ;
    }
    let halves = n / 16;
    for h in 0..halves
        invariant
            instance.wf(),
            round_keys.wf(),
            data@.len() == n,
            old(data)@.len() == n,
            n % 16 == 0,
            halves == n as int / 16,
            forall|t: int| 16 * h <= t < n ==> #[trigger] data@[t] == old(data)@[t],
            forall|h2: int|
                0 <= h2 < h ==> #[trigger] data@.subrange(16 * h2, 16 * h2 + 16)
                    == decrypt_block_spec(
                    round_keys@,
                    old(data)@.subrange(16 * h2, 16 * h2 + 16),
                ),
    {
        proof {
            assert(16 * h + 16 <= n) by (nonlinear_arith)
                requires
                    0 <= h < n as int / 16,
                    n % 16 == 0,
                    n >= 0,
            ;
        }
        let blk = crate::block::slice_range(data, 16 * h, 16 * h + 16);
        proof {
            assert forall|t: int| 0 <= t < 16 implies blk@[t] == old(data)@[16 * (h as int)
                + t] by {
                assert(blk@[t] == data@[16 * (h as int) + t]);
                assert(data@[16 * (h as int) + t] == old(data)@[16 * (h as int) + t]);
            }
            assert(blk@ =~= old(data)@.subrange(16 * (h as int), 16 * (h as int) + 16));
        }
        let dec = decrypt_block(&blk, round_keys);
        let ghost data_snap = data@;
        for t in 0..16usize
            invariant
                data@.len() == n,
                data_snap.len() == n,
                dec@.len() == 16,
                h < halves,
                16 * h + 16 <= n,
                forall|u: int|
                    0 <= u < n && !(16 * h <= u < 16 * h + t) ==> #[trigger] data@[u]
                        == data_snap[u],
                forall|u: int| 0 <= u < t ==> #[trigger] data@[16 * (h as int) + u] == dec@[u],
        {
            data.set(16 * h + t, dec[t]);
        }
        proof {
            assert forall|t: int| 0 <= t < 16 implies #[trigger] data@.subrange(
                16 * (h as int),
                16 * (h as int) + 16,
            )[t] == dec@[t] by {
                assert(data@[16 * (h as int) + t] == dec@[t]);
            }
            assert(data@.subrange(16 * (h as int), 16 * (h as int) + 16) =~= dec@);
            assert forall|h2: int| 0 <= h2 < h implies #[trigger] data@.subrange(
                16 * h2,
                16 * h2 + 16,
            ) == decrypt_block_spec(
                round_keys@,
                old(data)@.subrange(16 * h2, 16 * h2 + 16),
            ) by {
                assert forall|t: int| 0 <= t < 16 implies #[trigger] data@.subrange(
                    16 * h2,
                    16 * h2 + 16,
                )[t] == data_snap.subrange(16 * h2, 16 * h2 + 16)[t] by {
                    assert(16 * h2 + t < 16 * (h as int));
                    assert(data@[16 * h2 + t] == data_snap[16 * h2 + t]);
                }
                assert(data@.subrange(16 * h2, 16 * h2 + 16) =~= data_snap.subrange(
                    16 * h2,
                    16 * h2 + 16,
                ));
            }
        }
    }
    Ok(())
}

} // verus!
