//! Table representations for white-box AES rounds.

use vstd::prelude::*;

use crate::rng::WbRng;

verus! {

/// A `(x, y) -> 32-byte` lookup table with 16-bit input. Entries are
/// stored flat: the entry for `(x, y)` occupies the 32 bytes starting at
/// `32 * (256x + y)`.
#[derive(Clone, Debug, PartialEq, Eq)]
pub struct Table16x256 {
    data: Vec<u8>,
}

impl Table16x256 {
    /// The flat store holds all 65536 32-byte entries.
    pub closed spec fn wf(&self) -> bool {
        self.data@.len() == 2097152
    }

    /// The 32-byte entry for `(x, y)`.
    pub closed spec fn entry(&self, x: u8, y: u8) -> Seq<u8> {
        self.data@.subrange(
            32 * (256 * (x as int) + y as int),
            32 * (256 * (x as int) + y as int) + 32,
        )
    }

    /// The flat bytes of the whole table, entry `(x, y)` at offset
    /// `32 * (256x + y)`.
    pub closed spec fn bytes(&self) -> Seq<u8> {
        self.data@
    }

    /// The flat bytes hold the entries in order.
    pub proof fn lemma_bytes_entries(&self)
        requires
            self.wf(),
        ensures
            self.bytes().len() == 2097152,
            forall|x: u8, y: u8| #[trigger] self.entry(x, y) == self.bytes().subrange(
                32 * (256 * (x as int) + y as int),
                32 * (256 * (x as int) + y as int) + 32,
            ),
    {
    }

    /// Allocates a zeroed table.
    pub fn new_zeroed() -> (r: Table16x256)
        ensures
            r.wf(),
            forall|x: u8, y: u8, t: int| 0 <= t < 32 ==> #[trigger] r.entry(x, y)[t] == 0u8,
    {
        let data = crate::block::zero_bytes(2097152);
        Table16x256 { data }
    }

    /// Wraps the flat bytes of a table, entry `(x, y)` at offset
    /// `32 * (256x + y)`.
    pub fn from_bytes(data: Vec<u8>) -> (r: Table16x256)
        requires
            data@.len() == 2097152,
        ensures
            r.wf(),
            r.bytes() == data@,
            r.bytes().len() == 2097152,
    {
        Table16x256 { data }
    }

    /// Exposes the flat bytes of the table.
    pub fn as_bytes(&self) -> (r: &Vec<u8>)
        requires
            self.wf(),
        ensures
            r@ == self.bytes(),
            r@.len() == 2097152,
    {
        &self.data
    }

    /// Writes the entry for `(x, y)`, leaving every other entry unchanged.
    pub fn set(&mut self, x: u8, y: u8, value: &Vec<u8>)
        requires
            old(self).wf(),
            value@.len() == 32,
        ensures
            final(self).wf(),
            final(self).entry(x, y) == value@,
            forall|a: u8, b: u8|
                !(a == x && b == y) ==> #[trigger] final(self).entry(a, b) == old(self).entry(
                    a,
                    b,
                ),
    {
        let idx = 32 * (256 * (x as usize) + (y as usize));
        for t in 0..32usize
            invariant
                self.data@.len() == 2097152,
                value@.len() == 32,
                idx == 32 * (256 * (x as int) + y as int),
                forall|u: int| 0 <= u < t ==> self.data@[idx + u] == value@[u],
                forall|u: int|
                    0 <= u < 2097152 && !(idx <= u < idx + t) ==> self.data@[u] == old(
                        self,
                    ).data@[u],
        {
            self.data.set(idx + t, value[t]);
        }
        proof {
            assert(self.entry(x, y) =~= value@);
            assert forall|a: u8, b: u8| !(a == x && b == y) implies #[trigger] self.entry(a, b)
                == old(self).entry(a, b) by {
                let base = 32 * (256 * (a as int) + b as int);
                assert(256 * (a as int) + b as int != 256 * (x as int) + y as int);
                assert forall|u: int| 0 <= u < 32 implies #[trigger] self.data@[base + u] == old(
                    self,
                ).data@[base + u] by {
                    assert(!(idx <= base + u < idx + 32));
                }
                assert(self.entry(a, b) =~= old(self).entry(a, b));
            }
        }
    }

    /// Writes the entry for `(x, y)` as the XOR of three 32-byte values in
    /// one pass, leaving every other entry unchanged.
    pub fn set_xor3(&mut self, x: u8, y: u8, a: &Vec<u8>, b: &Vec<u8>, c: &Vec<u8>)
        requires
            old(self).wf(),
            a@.len() == 32,
            b@.len() == 32,
            c@.len() == 32,
        ensures
            final(self).wf(),
            final(self).entry(x, y) == crate::gf2::bytes_xor(crate::gf2::bytes_xor(a@, b@), c@),
            forall|p: u8, q: u8|
                !(p == x && q == y) ==> #[trigger] final(self).entry(p, q) == old(self).entry(
                    p,
                    q,
                ),
    {
        let idx = 32 * (256 * (x as usize) + (y as usize));
        for t in 0..32usize
            invariant
                self.data@.len() == 2097152,
                a@.len() == 32,
                b@.len() == 32,
                c@.len() == 32,
                idx == 32 * (256 * (x as int) + y as int),
                forall|u: int| 0 <= u < t ==> self.data@[idx + u] == (a@[u] ^ b@[u]) ^ c@[u],
                forall|u: int|
                    0 <= u < 2097152 && !(idx <= u < idx + t) ==> self.data@[u] == old(
                        self,
                    ).data@[u],
        {
            self.data.set(idx + t, (a[t] ^ b[t]) ^ c[t]);
        }
        proof {
            assert(self.entry(x, y) =~= crate::gf2::bytes_xor(crate::gf2::bytes_xor(a@, b@), c@));
            assert forall|p: u8, q: u8| !(p == x && q == y) implies #[trigger] self.entry(p, q)
                == old(self).entry(p, q) by {
                let base = 32 * (256 * (p as int) + q as int);
                assert(256 * (p as int) + q as int != 256 * (x as int) + y as int);
                assert forall|u: int| 0 <= u < 32 implies #[trigger] self.data@[base + u] == old(
                    self,
                ).data@[base + u] by {
                    assert(!(idx <= base + u < idx + 32));
                }
                assert(self.entry(p, q) =~= old(self).entry(p, q));
            }
        }
    }

    /// Reads the entry for `(x, y)`.
    pub fn get(&self, x: u8, y: u8) -> (r: Vec<u8>)
        requires
            self.wf(),
        ensures
            r@ == self.entry(x, y),
            r@.len() == 32,
    {
        let idx = 32 * (256 * (x as usize) + (y as usize));
        crate::block::slice_range(&self.data, idx, idx + 32)
    }
}

/// The 32 tables of one round, indexed by byte position in the 32-byte
/// extended state.
#[derive(Clone, Debug, PartialEq, Eq)]
pub struct RoundTables {
    /// The 32 tables for the round.
    pub tables: Vec<Table16x256>,
}

impl RoundTables {
    /// The round holds 32 well-formed tables.
    pub open spec fn wf(&self) -> bool {
        self.tables@.len() == 32 && forall|i: int| 0 <= i < 32 ==> (#[trigger] self.tables@[i]).wf()
    }

    /// Allocates zeroed tables for the round.
    pub fn new_zeroed() -> (r: RoundTables)
        ensures
            r.wf(),
            forall|i: int, x: u8, y: u8, t: int|
                0 <= i < 32 && 0 <= t < 32 ==> #[trigger] r.tables@[i].entry(x, y)[t] == 0u8,
    {
        let mut tables: Vec<Table16x256> = Vec::new();
        for i in 0..32usize
            invariant
                tables@.len() == i,
                forall|t: int| 0 <= t < i ==> (#[trigger] tables@[t]).wf(),
                forall|t: int, x: u8, y: u8, u: int|
                    0 <= t < i && 0 <= u < 32 ==> #[trigger] tables@[t].entry(x, y)[u] == 0u8,
        {
            tables.push(Table16x256::new_zeroed());
        }
        RoundTables { tables }
    }
}

/// Random mask table `x -> 32 bytes`, used as a throwaway mask while a
/// round is generated and discarded afterwards.
#[derive(Clone, Debug)]
pub struct HTable {
    data: Vec<Vec<u8>>,
}

impl HTable {
    /// The table holds 256 32-byte masks.
    pub closed spec fn wf(&self) -> bool {
        self.data@.len() == 256 && forall|t: int| 0 <= t < 256 ==> (#[trigger] self.data@[t])@.len()
            == 32
    }

    /// The mask for input x.
    pub closed spec fn entry(&self, x: u8) -> Seq<u8> {
        self.data@[x as int]@
    }

    /// Every mask of a well-formed table holds 32 bytes.
    pub proof fn lemma_entry_len(&self, x: u8)
        requires
            self.wf(),
        ensures
            self.entry(x).len() == 32,
    {
    }

    /// Draws a table of 256 random 32-byte masks.
    pub fn random(rng: &mut WbRng) -> (r: HTable)
        ensures
            r.wf(),
    {
        let mut data: Vec<Vec<u8>> = Vec::new();
        for i in 0..256usize
            invariant
                data@.len() == i,
                forall|t: int| 0 <= t < i ==> (#[trigger] data@[t])@.len() == 32,
        {
            data.push(rng.random_bytes(32));
        }
        HTable { data }
    }

    /// Returns the mask for input x.
    pub fn get(&self, x: u8) -> (r: &Vec<u8>)
        requires
            self.wf(),
        ensures
            r@ == self.entry(x),
            r@.len() == 32,
    {
        &self.data[x as usize]
    }
}

} // verus!
