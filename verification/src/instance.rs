//! Instance representation and its versioned byte framing.

use vstd::prelude::*;

use crate::affine::Affine256;
use crate::block::{append_bytes, slice_range};
use crate::errors::WbError;
use crate::gf2;
use crate::matrix::Matrix256;
use crate::tables::{RoundTables, Table16x256};

verus! {

/// Scheme identifier.
#[derive(Clone, Copy, Debug, PartialEq, Eq, Structural)]
pub enum SchemeId {
    /// Baek-Cheon-Hong revisited white-box AES (JCN 2016).
    BaekCheonHong2016,
}

/// Static parameters describing the instance.
#[derive(Clone, Copy, Debug, PartialEq, Eq, Structural)]
pub struct InstanceParams {
    /// Number of rounds (10 for AES-128).
    pub rounds: usize,
    /// Block size in bytes (32 for two AES blocks).
    pub block_bytes: usize,
    /// Input bits per table (16 for a pair of bytes).
    pub table_input_bits: u32,
    /// Output bits per table entry (256).
    pub table_output_bits: u32,
    /// Encoding size in bits (256 for unsplit sparse encodings).
    pub ma_bits: u32,
    /// Scheme identifier.
    pub scheme: SchemeId,
    /// Version tag for future compatibility changes.
    pub version: u32,
}

/// The one parameter set this construction produces.
pub open spec fn default_params() -> InstanceParams {
    InstanceParams {
        rounds: 10,
        block_bytes: 32,
        table_input_bits: 16,
        table_output_bits: 256,
        ma_bits: 256,
        scheme: SchemeId::BaekCheonHong2016,
        version: 1,
    }
}

impl Default for InstanceParams {
    /// The parameters of the supported construction.
    fn default() -> (r: Self)
        ensures
            r == default_params(),
    {
        InstanceParams {
            rounds: 10,
            block_bytes: 32,
            table_input_bits: 16,
            table_output_bits: 256,
            ma_bits: 256,
            scheme: SchemeId::BaekCheonHong2016,
            version: 1,
        }
    }
}

/// External encodings applied before and after the table network.
#[derive(Clone, Debug, PartialEq, Eq)]
pub struct ExternalEncodings {
    /// Input encoding, applied to the plaintext before the rounds.
    pub input: Affine256,
    /// Optional output encoding to apply after the final round, when not
    /// already folded into the last round's tables.
    pub output: Option<Affine256>,
}

impl ExternalEncodings {
    /// Both encodings are well formed.
    pub open spec fn wf(&self) -> bool {
        &&& self.input.wf()
        &&& match self.output {
            Some(o) => o.wf(),
            None => true,
        }
    }
}

/// Complete white-box instance for a 32-byte doubled AES state.
#[derive(Clone, Debug, PartialEq, Eq)]
pub struct WbInstance256 {
    /// Round tables for the ten rounds.
    pub rounds: Vec<RoundTables>,
    /// External encodings.
    pub encodings: ExternalEncodings,
    /// Static parameters.
    pub params: InstanceParams,
}

/// The little-endian 32-bit value stored at the given offset.
pub open spec fn le32_spec(b: Seq<u8>, off: int) -> int {
    b[off] + 256 * b[off + 1] + 65536 * b[off + 2] + 16777216 * b[off + 3]
}

/// A blob long enough to carry the header.
pub open spec fn header_readable(b: Seq<u8>) -> bool {
    b.len() >= 26
}

/// The blob carries the supported scheme tag.
pub open spec fn scheme_ok(b: Seq<u8>) -> bool {
    b[0] == 1u8
}

/// The blob carries the supported format version.
pub open spec fn version_ok(b: Seq<u8>) -> bool {
    le32_spec(b, 1) == 1
}

/// The whole length of a blob with or without an output encoding.
pub open spec fn blob_len_spec(has_output: bool) -> int {
    26 + 8224 + (if has_output {
        8224int
    } else {
        0int
    }) + 671088640
}

/// The blob carries the supported shape: ten rounds of 32 tables on a
/// 32-byte state, 16-bit table inputs, 256-bit entries and encodings, a
/// valid output flag, and exactly the matching length.
pub open spec fn shape_ok(b: Seq<u8>) -> bool {
    &&& le32_spec(b, 5) == 10
    &&& le32_spec(b, 9) == 32
    &&& le32_spec(b, 13) == 16
    &&& le32_spec(b, 17) == 256
    &&& le32_spec(b, 21) == 256
    &&& (b[25] == 0u8 || b[25] == 1u8)
    &&& b.len() == blob_len_spec(b[25] == 1u8)
}

/// An affine map stored at the given offset: 8192 bytes of packed linear
/// part followed by the 32-byte bias.
pub open spec fn affine_at(a: Affine256, b: Seq<u8>, off: int) -> bool {
    &&& forall|row: int, col: int|
        0 <= row < 256 && 0 <= col < 256 ==> a.lin@[row][col] == gf2::u8_bit(
            b[off + 32 * row + col / 8],
            col % 8,
        )
    &&& forall|t: int| 0 <= t < 32 ==> a.bias@[t] == b[off + 8192 + t]
}

/// The ten rounds of tables stored at the given offset, each table's flat
/// bytes in order.
pub open spec fn tables_at(rounds: Seq<RoundTables>, b: Seq<u8>, off: int) -> bool {
    forall|r: int, i: int, t: int|
        0 <= r < 10 && 0 <= i < 32 && 0 <= t < 2097152 ==> #[trigger] rounds[r].tables@[i].bytes()[t]
            == b[off + 2097152 * (32 * r + i) + t]
}

/// Appends a 32-bit value in little-endian order.
fn push_le32(out: &mut Vec<u8>, x: u32)
    ensures
        final(out)@.len() == old(out)@.len() + 4,
        forall|u: int| 0 <= u < old(out)@.len() ==> final(out)@[u] == old(out)@[u],
        le32_spec(final(out)@, old(out)@.len() as int) == x as int,
{
    proof {
        assert(x == (x & 0xff) + 0x100 * ((x >> 8u32) & 0xff) + 0x10000 * ((x >> 16u32) & 0xff)
            + 0x1000000 * (x >> 24u32) && (x & 0xff) < 256 && ((x >> 8u32) & 0xff) < 256 && ((x
            >> 16u32) & 0xff) < 256 && (x >> 24u32) < 256) by (bit_vector);
    }
    out.push((x & 0xff) as u8);
    out.push(((x >> 8u32) & 0xff) as u8);
    out.push(((x >> 16u32) & 0xff) as u8);
    out.push((x >> 24u32) as u8);
}

impl WbInstance256 {
    /// Ten well-formed rounds, well-formed encodings, and the supported
    /// parameters.
    pub open spec fn wf(&self) -> bool {
        &&& self.rounds@.len() == 10
        &&& forall|r: int| 0 <= r < 10 ==> (#[trigger] self.rounds@[r]).wf()
        &&& self.encodings.wf()
        &&& self.params == default_params()
    }

    /// Serializes the instance as one versioned blob: a 26-byte header
    /// (scheme tag, version, shape fields, output flag), the input
    /// encoding, the output encoding when present, and the ten rounds of
    /// table bytes verbatim.
    pub fn to_bytes(&self) -> (r: Vec<u8>)
        requires
            self.wf(),
        ensures
            r@.len() == blob_len_spec(self.encodings.output is Some),
            header_readable(r@),
            scheme_ok(r@),
            version_ok(r@),
            shape_ok(r@),
            (r@[25] == 1u8) == (self.encodings.output is Some),
            affine_at(self.encodings.input, r@, 26),
            match self.encodings.output {
                Some(o) => affine_at(o, r@, 26int + 8224),
                None => true,
            },
            tables_at(
                self.rounds@,
                r@,
                26 + 8224 + (if self.encodings.output is Some {
                    8224int
                } else {
                    0int
                }),
            ),
    {
        let mut header: Vec<u8> = Vec::new();
        header.push(1);
        push_le32(&mut header, 1);
        push_le32(&mut header, 10);
        push_le32(&mut header, 32);
        push_le32(&mut header, 16);
        push_le32(&mut header, 256);
        push_le32(&mut header, 256);
        let has: u8 = match &self.encodings.output {
            Some(_) => 1,
            None => 0,
        };
        header.push(has);
        let ghost hview = header@;
        proof {
            assert(hview.len() == 26);
            assert(hview[0] == 1);
            assert(le32_spec(hview, 1) == 1);
            assert(le32_spec(hview, 5) == 10);
            assert(le32_spec(hview, 9) == 32);
            assert(le32_spec(hview, 13) == 16);
            assert(le32_spec(hview, 17) == 256);
            assert(le32_spec(hview, 21) == 256);
            assert(hview[25] == has);
        }
        let mut out: Vec<u8> = Vec::with_capacity(679321114);
        append_bytes(&mut out, &header);
        proof {
            assert(out@ =~= hview);
        }
        let lin_bytes = self.encodings.input.lin.to_packed_bytes();
        append_bytes(&mut out, &lin_bytes);
        append_bytes(&mut out, &self.encodings.input.bias);
        proof {
            assert(out@ == hview + lin_bytes@ + self.encodings.input.bias@);
        }
        let ghost in_part = out@;
        match &self.encodings.output {
            Some(o) => {
                let olin_bytes = o.lin.to_packed_bytes();
                append_bytes(&mut out, &olin_bytes);
                append_bytes(&mut out, &o.bias);
                proof {
                    assert(out@ == in_part + olin_bytes@ + o.bias@);
                }
            },
            None => {},
        }
        let ghost toff = out@.len() as int;
        let ghost prefix = out@;
        for r in 0..10usize
            invariant
                self.wf(),
                toff == prefix.len(),
                out@.len() == toff + 67108864 * r,
                forall|u: int| 0 <= u < toff ==> #[trigger] out@[u] == prefix[u],
                forall|r2: int, i2: int, t: int|
                    0 <= r2 < r && 0 <= i2 < 32 && 0 <= t < 2097152
                        ==> #[trigger] self.rounds@[r2].tables@[i2].bytes()[t] == out@[toff
                        + 2097152 * (32 * r2 + i2) + t],
        {
            for i in 0..32usize
                invariant
                    self.wf(),
                    r < 10,
                    toff == prefix.len(),
                    out@.len() == toff + 67108864 * r + 2097152 * i,
                    forall|u: int| 0 <= u < toff ==> #[trigger] out@[u] == prefix[u],
                    forall|r2: int, i2: int, t: int|
                        0 <= r2 < 10 && 0 <= i2 < 32 && (32 * r2 + i2 < 32 * r + i) && 0 <= t
                            < 2097152 ==> #[trigger] self.rounds@[r2].tables@[i2].bytes()[t]
                            == out@[toff + 2097152 * (32 * r2 + i2) + t],
            {
                let ghost before = out@;
                append_bytes(&mut out, self.rounds[r].tables[i].as_bytes());
                proof {
                    assert(out@.len() == before.len() + 2097152);
                    assert(before.len() == toff + 2097152 * (32 * (r as int) + i as int));
                    assert forall|t: int| 0 <= t < 2097152 implies #[trigger] self.rounds@[
                        r as int
                    ].tables@[i as int].bytes()[t] == out@[toff + 2097152 * (32 * (r as int)
                        + i as int) + t] by {
                        assert(out@[before.len() + t] == self.rounds@[r as int].tables@[
                            i as int
                        ].bytes()[t]);
                    }
                }
            }
        }
        proof {
            let b = out@;
            assert(b.len() == toff + 671088640);
            assert forall|u: int| 0 <= u < 26 implies #[trigger] b[u] == hview[u] by {
                assert(prefix[u] == hview[u]);
            }
            assert(scheme_ok(b));
            assert(version_ok(b));
            assert(le32_spec(b, 5) == 10 && le32_spec(b, 9) == 32 && le32_spec(b, 13) == 16
                && le32_spec(b, 17) == 256 && le32_spec(b, 21) == 256);
            assert(b[25] == has);
            assert(b.len() == blob_len_spec(b[25] == 1u8));
            assert forall|row: int, col: int| 0 <= row < 256 && 0 <= col < 256 implies self
                .encodings.input.lin@[row][col] == gf2::u8_bit(
                b[26 + 32 * row + col / 8],
                col % 8,
            ) by {
                assert(0 <= 32 * row + col / 8 < 8192);
                assert(prefix[26 + 32 * row + col / 8] == lin_bytes@[32 * row + col / 8]);
            }
            assert forall|t: int| 0 <= t < 32 implies self.encodings.input.bias@[t] == b[26 + 8192
                + t] by {
                assert(prefix[26 + 8192 + t] == self.encodings.input.bias@[t]);
            }
            assert(affine_at(self.encodings.input, b, 26));
            match &self.encodings.output {
                Some(o) => {
                    assert forall|row: int, col: int| 0 <= row < 256 && 0 <= col < 256 implies o
                        .lin@[row][col] == gf2::u8_bit(
                        b[26 + 8224 + 32 * row + col / 8],
                        col % 8,
                    ) by {
                        assert(0 <= 32 * row + col / 8 < 8192);
                        assert(prefix[26 + 8224 + 32 * row + col / 8] == b[26 + 8224 + 32 * row
                            + col / 8]);
                    }
                    assert forall|t: int| 0 <= t < 32 implies o.bias@[t] == b[26 + 8224 + 8192
                        + t] by {
                        assert(prefix[26 + 8224 + 8192 + t] == b[26 + 8224 + 8192 + t]);
                    }
                    assert(affine_at(*o, b, 26int + 8224));
                },
                None => {},
            }
            assert(tables_at(
                self.rounds@,
                b,
                26 + 8224 + (if self.encodings.output is Some {
                    8224int
                } else {
                    0int
                }),
            ));
        }
        out
    }

    /// Reads an instance back from a serialized blob. The scheme tag, the
    /// version and the shape fields are checked in that order, and a blob
    /// too short for the header is a shape mismatch.
    pub fn from_bytes(bytes: &Vec<u8>) -> (r: Result<WbInstance256, WbError>)
        ensures
            match r {
                Ok(inst) => {
                    &&& header_readable(bytes@)
                    &&& scheme_ok(bytes@)
                    &&& version_ok(bytes@)
                    &&& shape_ok(bytes@)
                    &&& inst.wf()
                    &&& (inst.encodings.output is Some) == (bytes@[25] == 1u8)
                    &&& affine_at(inst.encodings.input, bytes@, 26)
                    &&& match inst.encodings.output {
                        Some(o) => affine_at(o, bytes@, 26int + 8224),
                        None => true,
                    }
                    &&& tables_at(
                        inst.rounds@,
                        bytes@,
                        26 + 8224 + (if bytes@[25] == 1u8 {
                            8224int
                        } else {
                            0int
                        }),
                    )
                },
                Err(e) => {
                    ||| (e == WbError::InstanceShapeMismatch && !header_readable(bytes@))
                    ||| (e == WbError::SchemeMismatch && header_readable(bytes@) && !scheme_ok(
                        bytes@,
                    ))
                    ||| (e == WbError::InstanceVersionMismatch && header_readable(bytes@)
                        && scheme_ok(bytes@) && !version_ok(bytes@))
                    ||| (e == WbError::InstanceShapeMismatch && header_readable(bytes@)
                        && scheme_ok(bytes@) && version_ok(bytes@) && !shape_ok(bytes@))
                },
            },
    {
        if bytes.len() < 26 {
            return Err(WbError::InstanceShapeMismatch);
        }
        if bytes[0] != 1 {
            return Err(WbError::SchemeMismatch);
        }
        if read_le32(bytes, 1) != 1 {
            return Err(WbError::InstanceVersionMismatch);
        }
        let shape_good = read_le32(bytes, 5) == 10 && read_le32(bytes, 9) == 32 && read_le32(
            bytes,
            13,
        ) == 16 && read_le32(bytes, 17) == 256 && read_le32(bytes, 21) == 256;
        if !shape_good {
            return Err(WbError::InstanceShapeMismatch);
        }
        let has_byte = bytes[25];
        if has_byte != 0 && has_byte != 1 {
            return Err(WbError::InstanceShapeMismatch);
        }
        let has = has_byte == 1;
        let expected: usize = 26 + 8224 + (if has {
            8224
        } else {
            0
        }) + 671088640;
        if bytes.len() != expected {
            return Err(WbError::InstanceShapeMismatch);
        }
        let lin_slice = slice_range(bytes, 26, 26 + 8192);
        let lin = Matrix256::from_packed_bytes(&lin_slice);
        let bias = slice_range(bytes, 26 + 8192, 26 + 8224);
        let input = Affine256::new(lin, bias);
        let output: Option<Affine256> = if has {
            let olin_slice = slice_range(bytes, 26 + 8224, 26 + 8224 + 8192);
            let olin = Matrix256::from_packed_bytes(&olin_slice);
            let obias = slice_range(bytes, 26 + 8224 + 8192, 26 + 8224 + 8224);
            Some(Affine256::new(olin, obias))
        } else {
            None
        };
        let toff: usize = 26 + 8224 + (if has {
            8224
        } else {
            0
        });
        let mut rounds: Vec<RoundTables> = Vec::new();
        for r in 0..10usize
            invariant
                bytes@.len() == (toff + 671088640) as int,
                toff == 26 + 8224 + (if has {
                    8224int
                } else {
                    0int
                }),
                rounds@.len() == r,
                forall|r2: int| 0 <= r2 < r ==> (#[trigger] rounds@[r2]).wf(),
                forall|r2: int, i2: int, t: int|
                    0 <= r2 < r && 0 <= i2 < 32 && 0 <= t < 2097152 ==> #[trigger] rounds@[r2].tables@[i2].bytes()[t] == bytes@[toff as int + 2097152 * (32 * r2 + i2) + t],
        {
            let mut tables: Vec<Table16x256> = Vec::new();
            for i in 0..32usize
                invariant
                    bytes@.len() == (toff + 671088640) as int,
                    toff == 26 + 8224 + (if has {
                        8224int
                    } else {
                        0int
                    }),
                    r < 10,
                    tables@.len() == i,
                    forall|i2: int| 0 <= i2 < i ==> (#[trigger] tables@[i2]).wf(),
                    forall|i2: int, t: int|
                        0 <= i2 < i && 0 <= t < 2097152 ==> #[trigger] tables@[i2].bytes()[t]
                            == bytes@[toff as int + 2097152 * (32 * (r as int) + i2) + t],
            {
                let start = toff + 2097152 * (32 * r + i);
                let tbl_bytes = slice_range(bytes, start, start + 2097152);
                let tbl = Table16x256::from_bytes(tbl_bytes);
                tables.push(tbl);
            }
            rounds.push(RoundTables { tables });
        }
        let inst = WbInstance256 {
            rounds,
            encodings: ExternalEncodings { input, output },
            params: InstanceParams::default(),
        };
        Ok(inst)
    }
}

/// Reads the little-endian 32-bit value at the given offset.
fn read_le32(bytes: &Vec<u8>, off: usize) -> (r: u32)
    requires
        off + 4 <= bytes@.len(),
    ensures
        r as int == le32_spec(bytes@, off as int),
{
    let n = bytes.len();
    (bytes[off] as u32) + 256 * (bytes[off + 1] as u32) + 65536 * (bytes[off + 2] as u32)
        + 16777216 * (bytes[off + 3] as u32)
}

} // verus!
