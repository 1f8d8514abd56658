//! Key types for AES-128.

use vstd::prelude::*;

verus! {

/// AES-128 key: 16 bytes.
#[derive(Clone, Debug, PartialEq, Eq)]
pub struct Aes128Key {
    bytes: Vec<u8>,
}

impl View for Aes128Key {
    type V = Seq<u8>;

    closed spec fn view(&self) -> Seq<u8> {
        self.bytes@
    }
}

impl Aes128Key {
    /// The key holds exactly 16 bytes.
    pub open spec fn wf(&self) -> bool {
        self@.len() == 16
    }

    /// Wraps 16 key bytes.
    pub fn new(bytes: Vec<u8>) -> (r: Aes128Key)
        requires
            bytes@.len() == 16,
        ensures
            r.wf(),
            r@ == bytes@,
    {
        Aes128Key { bytes }
    }

    /// Exposes the key bytes.
    pub fn bytes(&self) -> (r: &Vec<u8>)
        ensures
            r@ == self@,
    {
        &self.bytes
    }
}

/// Expanded round keys for AES-128: eleven 16-byte keys, stored flat. The
/// view is the sequence of the eleven keys.
#[derive(Clone, Debug, PartialEq, Eq)]
pub struct RoundKeys {
    keys: Vec<u8>,
}

impl View for RoundKeys {
    type V = Seq<Seq<u8>>;

    closed spec fn view(&self) -> Seq<Seq<u8>> {
        Seq::new(11, |r: int| Seq::new(16, |j: int| self.keys@[16 * r + j]))
    }
}

/// Every `RoundKeys` view holds eleven 16-byte keys.
pub broadcast proof fn lemma_round_keys_shape(rk: RoundKeys)
    ensures
        (#[trigger] rk@).len() == 11,
        forall|r: int| 0 <= r < 11 ==> (#[trigger] rk@[r]).len() == 16,
{
}

impl RoundKeys {
    /// The flat store holds exactly 11 * 16 bytes.
    pub closed spec fn wf(&self) -> bool {
        self.keys@.len() == 176
    }

    /// Wraps a flat store of eleven 16-byte round keys, key r at offset
    /// 16 * r.
    pub fn from_flat(keys: Vec<u8>) -> (r: RoundKeys)
        requires
            keys@.len() == 176,
        ensures
            r.wf(),
            forall|t: int, j: int| 0 <= t < 11 && 0 <= j < 16 ==> r@[t][j] == keys@[16 * t + j],
    {
        RoundKeys { keys }
    }

    /// Returns a copy of the round key at the requested index.
    pub fn get(&self, round: usize) -> (r: Vec<u8>)
        requires
            self.wf(),
            round < 11,
        ensures
            r@ == self@[round as int],
            r@.len() == 16,
    {
        let mut out: Vec<u8> = Vec::new();
        for j in 0..16usize
            invariant
                self.wf(),
                round < 11,
                out@.len() == j,
                forall|t: int| 0 <= t < j ==> out@[t] == self.keys@[16 * (round as int) + t],
        {
            out.push(self.keys[16 * round + j]);
        }
        proof {
            assert(out@ =~= self@[round as int]);
        }
        out
    }
}

} // verus!
