//! Identity of a singleton-manager pool: the Keccak-256 digest of the ABI
//! encoding of its key.
use vstd::prelude::*;

verus! {

/// The key of a singleton-manager pool.
#[derive(Clone, Copy, Debug, PartialEq, Eq)]
pub struct V4Key {
    pub currency0: [u8; 20],
    pub currency1: [u8; 20],
    pub fee: u32,
    pub tickspacing: i32,
    pub hooks: [u8; 20],
}

/// The Keccak-256 digest of `data`.
pub uninterp spec fn keccak256_of(data: Seq<u8>) -> Seq<u8>;

/// Relies on `alloy::primitives::keccak256`: the 32-byte Keccak-256 digest.
#[verifier::external_body]
fn keccak(data: &Vec<u8>) -> (r: [u8; 32])
    ensures
        r@ == keccak256_of(data@),
{
    alloy::primitives::keccak256(data).0
}

/// An address as an ABI word: twelve zero bytes, then its twenty bytes.
pub open spec fn address_word(a: [u8; 20]) -> Seq<u8> {
    Seq::new(12, |i: int| 0u8) + a@
}

/// A `uint24` as an ABI word: big-endian, zero-extended.
pub open spec fn uint24_word(v: u32) -> Seq<u8> {
    Seq::new(29, |i: int| 0u8) + seq![(v >> 16u32) as u8, (v >> 8u32) as u8, v as u8]
}

/// An `int24` as an ABI word: big-endian two's complement, sign-extended.
pub open spec fn int24_word(v: i32) -> Seq<u8> {
    Seq::new(29, |i: int| if v < 0 { 0xffu8 } else { 0u8 }) + seq![
        ((v as u32) >> 16u32) as u8,
        ((v as u32) >> 8u32) as u8,
        v as u8,
    ]
}

/// The ABI encoding of a key: its five fields as words, in order.
pub open spec fn key_encoding(k: V4Key) -> Seq<u8> {
    address_word(k.currency0) + address_word(k.currency1) + uint24_word(k.fee) + int24_word(k.tickspacing)
        + address_word(k.hooks)
}

fn push_zeros(out: &mut Vec<u8>, n: usize, fill: u8)
    ensures
        final(out)@ == old(out)@ + Seq::new(n as nat, |i: int| fill),
{
    let ghost start = out@;
    let mut i: usize = 0;
    while i < n
        invariant
            i <= n,
            out@ == start + Seq::new(i as nat, |j: int| fill),
        decreases n - i,
    {
        out.push(fill);
        proof {
            assert(start + Seq::new((i + 1) as nat, |j: int| fill) =~= start + Seq::new(i as nat, |j: int| fill)
                + seq![fill]);
        }
        i = i + 1;
    }
}

fn push_address(out: &mut Vec<u8>, a: &[u8; 20])
    ensures
        final(out)@ == old(out)@ + address_word(*a),
{
    let ghost start = out@;
    push_zeros(out, 12, 0);
    let mut i: usize = 0;
    while i < 20
        invariant
            i <= 20,
            out@ == start + Seq::new(12, |j: int| 0u8) + a@.take(i as int),
        decreases 20 - i,
    {
        out.push(a[i]);
        proof {
            assert(a@.take(i + 1) =~= a@.take(i as int).push(a@[i as int]));
        }
        i = i + 1;
    }
    proof {
        assert(a@.take(20) =~= a@);
    }
}

impl V4Key {
    /// The ABI encoding of the key, as `abi_encode` of the key struct gives it.
    pub fn abi_encode(&self) -> (r: Vec<u8>)
        ensures
            r@ == key_encoding(*self),
    {
        let mut out: Vec<u8> = Vec::new();
        push_address(&mut out, &self.currency0);
        push_address(&mut out, &self.currency1);
        push_zeros(&mut out, 29, 0);
        out.push((self.fee >> 16u32) as u8);
        out.push((self.fee >> 8u32) as u8);
        out.push(self.fee as u8);
        let s = self.tickspacing;
        push_zeros(&mut out, 29, if s < 0 { 0xff } else { 0 });
        out.push(((s as u32) >> 16u32) as u8);
        out.push(((s as u32) >> 8u32) as u8);
        out.push(s as u8);
        push_address(&mut out, &self.hooks);
        proof {
            assert(out@ =~= key_encoding(*self));
        }
        out
    }

    /// The pool identifier: Keccak-256 of the key's ABI encoding.
    pub fn pool_id(&self) -> (r: [u8; 32])
        ensures
            r@ == keccak256_of(key_encoding(*self)),
    {
        keccak(&self.abi_encode())
    }
}

} // verus!
