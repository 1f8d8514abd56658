//! Affine encodings over GF(2): pairs `(lin, bias)` denoting the map
//! `x -> lin * x ^ bias` on 8 or 256 bits.
//!
//! The proof functions at the end state the algebra the scheme rests on:
//! applying a composition equals applying the factors in order, and an
//! affine map followed by its inverse restores every input.

use vstd::prelude::*;

use crate::errors::WbError;
use crate::gf2;
use crate::matrix::{sparse_banded, Matrix256, Matrix8};
use crate::rng::WbRng;

verus! {

broadcast use crate::matrix::lemma_matrix8_shape, crate::matrix::lemma_matrix256_shape;

/// What an 8-bit affine map sends a byte to, at the bit level.
pub open spec fn affine8_apply_spec(lin: Seq<Seq<bool>>, bias: u8, x: u8) -> Seq<bool> {
    gf2::vec_xor(gf2::mat_apply(lin, gf2::u8_bits(x)), gf2::u8_bits(bias))
}

/// What a 256-bit affine map sends a 32-byte vector to, at the bit level.
pub open spec fn affine256_apply_spec(lin: Seq<Seq<bool>>, bias: Seq<u8>, x: Seq<u8>) -> Seq<
    bool,
> {
    gf2::vec_xor(gf2::mat_apply(lin, gf2::byte_bits(x)), gf2::byte_bits(bias))
}

/// 8-bit affine map `x -> lin * x ^ bias`.
#[derive(Clone, Debug, PartialEq, Eq)]
pub struct Affine8 {
    /// Linear component.
    pub lin: Matrix8,
    /// Additive bias.
    pub bias: u8,
}

impl Affine8 {
    /// The linear part is well formed.
    pub open spec fn wf(&self) -> bool {
        self.lin.wf()
    }

    /// Constructs a new affine map from components.
    pub fn new(lin: Matrix8, bias: u8) -> (r: Affine8)
        ensures
            r.lin == lin,
            r.bias == bias,
    {
        Affine8 { lin, bias }
    }

    /// Identity affine map.
    pub fn identity() -> (r: Affine8)
        ensures
            r.wf(),
            r.lin@ == gf2::ident_mat(8),
            r.bias == 0,
    {
        Affine8::new(Matrix8::identity(), 0)
    }

    /// Draws a random invertible affine map: an invertible linear part and
    /// a uniform bias.
    pub fn random(rng: &mut WbRng) -> (r: Result<Affine8, WbError>)
        ensures
            match r {
                Ok(a) => a.wf() && gf2::invertible(a.lin@, 8),
                Err(e) => e == WbError::MatrixNotInvertible,
            },
    {
        let lin = match Matrix8::random_invertible(rng) {
            Ok(l) => l,
            Err(e) => {
                return Err(e);
            },
        };
        let bias = rng.next_u32() as u8;
        Ok(Affine8::new(lin, bias))
    }

    /// Applies the affine map.
    pub fn apply(&self, value: u8) -> (r: u8)
        requires
            self.wf(),
        ensures
            gf2::u8_bits(r) == affine8_apply_spec(self.lin@, self.bias, value),
    {
        let m = self.lin.apply(value);
        let r = m ^ self.bias;
        proof {
            gf2::lemma_u8_bits_xor(m, self.bias);
        }
        r
    }

    /// Applies the inverse map, if the linear part is invertible. The
    /// inverse of `x -> L x ^ b` is `y -> L' y ^ L' b` for `L'` a two-sided
    /// inverse of `L`.
    pub fn invert(&self) -> (r: Option<Affine8>)
        requires
            self.wf(),
        ensures
            match r {
                Some(inv) => {
                    &&& inv.wf()
                    &&& gf2::mat_mul(inv.lin@, self.lin@, 8) == gf2::ident_mat(8)
                    &&& gf2::mat_mul(self.lin@, inv.lin@, 8) == gf2::ident_mat(8)
                    &&& gf2::u8_bits(inv.bias) == gf2::mat_apply(
                        inv.lin@,
                        gf2::u8_bits(self.bias),
                    )
                },
                None => !gf2::invertible(self.lin@, 8),
            },
    {
        match self.lin.invert() {
            Some(lin_inv) => {
                let bias = lin_inv.apply(self.bias);
                Some(Affine8::new(lin_inv, bias))
            },
            None => None,
        }
    }

    /// Composes `self` after `other` (i.e., `self ∘ other`).
    pub fn compose(&self, other: &Affine8) -> (r: Affine8)
        requires
            self.wf(),
            other.wf(),
        ensures
            r.wf(),
            r.lin@ == gf2::mat_mul(self.lin@, other.lin@, 8),
            gf2::u8_bits(r.bias) == gf2::vec_xor(
                gf2::mat_apply(self.lin@, gf2::u8_bits(other.bias)),
                gf2::u8_bits(self.bias),
            ),
    {
        let lin = self.lin.mul(&other.lin);
        let m = self.lin.apply(other.bias);
        let bias = m ^ self.bias;
        proof {
            gf2::lemma_u8_bits_xor(m, self.bias);
        }
        Affine8::new(lin, bias)
    }
}

/// 256-bit affine map `x -> lin * x ^ bias` on 32-byte vectors.
#[derive(Clone, Debug, PartialEq, Eq)]
pub struct Affine256 {
    /// Linear component.
    pub lin: Matrix256,
    /// Additive bias.
    pub bias: Vec<u8>,
}

impl Affine256 {
    /// The linear part is well formed and the bias holds 32 bytes.
    pub open spec fn wf(&self) -> bool {
        self.lin.wf() && self.bias@.len() == 32
    }

    /// Constructs a new affine map from components.
    pub fn new(lin: Matrix256, bias: Vec<u8>) -> (r: Affine256)
        requires
            bias@.len() == 32,
        ensures
            r.lin == lin,
            r.bias == bias,
    {
        Affine256 { lin, bias }
    }

    /// Identity affine map.
    pub fn identity() -> (r: Affine256)
        ensures
            r.wf(),
            r.lin@ == gf2::ident_mat(256),
            forall|t: int| 0 <= t < 32 ==> r.bias@[t] == 0u8,
    {
        Affine256::new(Matrix256::identity(), crate::block::zero_bytes(32))
    }

    /// Draws a random affine map with a sparse-banded invertible linear
    /// part and a uniform bias.
    pub fn random_sparse_unsplit(rng: &mut WbRng) -> (r: Result<Affine256, WbError>)
        ensures
            match r {
                Ok(a) => a.wf() && sparse_banded(a.lin@) && gf2::invertible(a.lin@, 256),
                Err(e) => e == WbError::MatrixNotInvertible,
            },
    {
        let lin = match Matrix256::random_sparse_unsplit(rng) {
            Ok(l) => l,
            Err(e) => {
                return Err(e);
            },
        };
        let bias = rng.random_bytes(32);
        Ok(Affine256::new(lin, bias))
    }

    /// Applies the affine map.
    pub fn apply(&self, value: &Vec<u8>) -> (r: Vec<u8>)
        requires
            self.wf(),
            value@.len() == 32,
        ensures
            r@.len() == 32,
            gf2::byte_bits(r@) == affine256_apply_spec(self.lin@, self.bias@, value@),
    {
        let mut out = self.lin.apply_to_bytes(value);
        proof {
            gf2::lemma_byte_bits_xor(out@, self.bias@);
        }
        crate::block::xor_in_place(&mut out, &self.bias);
        out
    }

    /// Applies the affine map in place.
    pub fn apply_in_place(&self, value: &mut Vec<u8>)
        requires
            self.wf(),
            old(value)@.len() == 32,
        ensures
            final(value)@.len() == 32,
            gf2::byte_bits(final(value)@) == affine256_apply_spec(
                self.lin@,
                self.bias@,
                old(value)@,
            ),
    {
        let r = self.apply(value);
        *value = r;
    }

    /// Applies the inverse map, if the linear part is invertible.
    pub fn invert(&self) -> (r: Option<Affine256>)
        requires
            self.wf(),
        ensures
            match r {
                Some(inv) => {
                    &&& inv.wf()
                    &&& gf2::mat_mul(inv.lin@, self.lin@, 256) == gf2::ident_mat(256)
                    &&& gf2::mat_mul(self.lin@, inv.lin@, 256) == gf2::ident_mat(256)
                    &&& gf2::byte_bits(inv.bias@) == gf2::mat_apply(
                        inv.lin@,
                        gf2::byte_bits(self.bias@),
                    )
                },
                None => !gf2::invertible(self.lin@, 256),
            },
    {
        match self.lin.invert() {
            Some(lin_inv) => {
                let bias = lin_inv.apply_to_bytes(&self.bias);
                Some(Affine256::new(lin_inv, bias))
            },
            None => None,
        }
    }

    /// Composes `self` after `other` (i.e., `self ∘ other`).
    pub fn compose(&self, other: &Affine256) -> (r: Affine256)
        requires
            self.wf(),
            other.wf(),
        ensures
            r.wf(),
            r.lin@ == gf2::mat_mul(self.lin@, other.lin@, 256),
            gf2::byte_bits(r.bias@) == gf2::vec_xor(
                gf2::mat_apply(self.lin@, gf2::byte_bits(other.bias@)),
                gf2::byte_bits(self.bias@),
            ),
    {
        let lin = self.lin.mul(&other.lin);
        let mut bias = self.lin.apply_to_bytes(&other.bias);
        proof {
            gf2::lemma_byte_bits_xor(bias@, self.bias@);
        }
        crate::block::xor_in_place(&mut bias, &self.bias);
        Affine256::new(lin, bias)
    }
}

/// Composition law for 8-bit affine maps: for every input x and for the
/// byte y that `b` sends x to, the composition `a ∘ b` sends x to what `a`
/// sends y to.
pub proof fn lemma_affine8_compose_apply(a: Affine8, b: Affine8, comp: Affine8, x: u8, y: u8)
    requires
        a.wf(),
        b.wf(),
        comp.lin@ == gf2::mat_mul(a.lin@, b.lin@, 8),
        gf2::u8_bits(comp.bias) == gf2::vec_xor(
            gf2::mat_apply(a.lin@, gf2::u8_bits(b.bias)),
            gf2::u8_bits(a.bias),
        ),
        gf2::u8_bits(y) == affine8_apply_spec(b.lin@, b.bias, x),
    ensures
        affine8_apply_spec(comp.lin@, comp.bias, x) == affine8_apply_spec(a.lin@, a.bias, y),
{
    let xb = gf2::u8_bits(x);
    gf2::lemma_mat_apply_mul(a.lin@, b.lin@, 8, xb);
    gf2::lemma_apply_linear(a.lin@, gf2::mat_apply(b.lin@, xb), gf2::u8_bits(b.bias));
    assert(affine8_apply_spec(comp.lin@, comp.bias, x) =~= affine8_apply_spec(
        a.lin@,
        a.bias,
        y,
    ));
}

/// Round-trip law for 8-bit affine maps: the inverse undoes the map, and
/// the map undoes the inverse, on every input.
pub proof fn lemma_affine8_roundtrip(a: Affine8, inv: Affine8, x: u8, y: u8)
    requires
        a.wf(),
        inv.wf(),
        gf2::mat_mul(inv.lin@, a.lin@, 8) == gf2::ident_mat(8),
        gf2::mat_mul(a.lin@, inv.lin@, 8) == gf2::ident_mat(8),
        gf2::u8_bits(inv.bias) == gf2::mat_apply(inv.lin@, gf2::u8_bits(a.bias)),
        gf2::u8_bits(y) == affine8_apply_spec(a.lin@, a.bias, x),
    ensures
        affine8_apply_spec(inv.lin@, inv.bias, y) == gf2::u8_bits(x),
{
    let xb = gf2::u8_bits(x);
    let ab = gf2::u8_bits(a.bias);
    gf2::lemma_apply_linear(inv.lin@, gf2::mat_apply(a.lin@, xb), ab);
    gf2::lemma_inverse_cancels(a.lin@, inv.lin@, 8, xb);
    assert(affine8_apply_spec(inv.lin@, inv.bias, y) =~= xb);
}

/// Composition law for 256-bit affine maps: for every 32-byte input x and
/// for the vector y that `b` sends x to, the composition `a ∘ b` sends x
/// to what `a` sends y to.
pub proof fn lemma_affine256_compose_apply(
    a: Affine256,
    b: Affine256,
    comp: Affine256,
    x: Seq<u8>,
    y: Seq<u8>,
)
    requires
        a.wf(),
        b.wf(),
        x.len() == 32,
        y.len() == 32,
        comp.lin@ == gf2::mat_mul(a.lin@, b.lin@, 256),
        gf2::byte_bits(comp.bias@) == gf2::vec_xor(
            gf2::mat_apply(a.lin@, gf2::byte_bits(b.bias@)),
            gf2::byte_bits(a.bias@),
        ),
        gf2::byte_bits(y) == affine256_apply_spec(b.lin@, b.bias@, x),
    ensures
        affine256_apply_spec(comp.lin@, comp.bias@, x) == affine256_apply_spec(a.lin@, a.bias@, y),
{
    let xb = gf2::byte_bits(x);
    gf2::lemma_mat_apply_mul(a.lin@, b.lin@, 256, xb);
    gf2::lemma_apply_linear(a.lin@, gf2::mat_apply(b.lin@, xb), gf2::byte_bits(b.bias@));
    assert(affine256_apply_spec(comp.lin@, comp.bias@, x) =~= affine256_apply_spec(
        a.lin@,
        a.bias@,
        y,
    ));
}

/// Round-trip law for 256-bit affine maps: the inverse undoes the map on
/// every 32-byte input.
pub proof fn lemma_affine256_roundtrip(a: Affine256, inv: Affine256, x: Seq<u8>, y: Seq<u8>)
    requires
        a.wf(),
        inv.wf(),
        x.len() == 32,
        y.len() == 32,
        gf2::mat_mul(inv.lin@, a.lin@, 256) == gf2::ident_mat(256),
        gf2::mat_mul(a.lin@, inv.lin@, 256) == gf2::ident_mat(256),
        gf2::byte_bits(inv.bias@) == gf2::mat_apply(inv.lin@, gf2::byte_bits(a.bias@)),
        gf2::byte_bits(y) == affine256_apply_spec(a.lin@, a.bias@, x),
    ensures
        affine256_apply_spec(inv.lin@, inv.bias@, y) == gf2::byte_bits(x),
{
    let xb = gf2::byte_bits(x);
    let ab = gf2::byte_bits(a.bias@);
    gf2::lemma_apply_linear(inv.lin@, gf2::mat_apply(a.lin@, xb), ab);
    gf2::lemma_inverse_cancels(a.lin@, inv.lin@, 256, xb);
    assert(affine256_apply_spec(inv.lin@, inv.bias@, y) =~= xb);
}

} // verus!
