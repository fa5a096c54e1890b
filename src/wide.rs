//! Fixed-width unsigned integers of 256 and 512 bits, held as little-endian
//! 64-bit limbs. Their arithmetic is carried out by `ruint`, re-exported by
//! `alloy::primitives`; each operation states its result over `value()`.
use alloy::primitives::{U256 as Word, U512 as Wide};
use vstd::arithmetic::power2::pow2;
use vstd::prelude::*;

verus! {

/// 2^64, the weight of one limb.
pub open spec fn limb() -> nat {
    0x1_0000_0000_0000_0000nat
}

/// 2^256, one past the largest `U256`.
pub open spec fn modulus256() -> nat {
    0x1_0000_0000_0000_0000_0000_0000_0000_0000_0000_0000_0000_0000_0000_0000_0000_0000nat
}

/// 2^512, one past the largest `U512`.
pub open spec fn modulus512() -> nat {
    0x1_0000_0000_0000_0000_0000_0000_0000_0000_0000_0000_0000_0000_0000_0000_0000_0000_0000_0000_0000_0000_0000_0000_0000_0000_0000_0000_0000_0000_0000_0000_0000_0000nat
}

/// An unsigned 256-bit integer.
#[derive(Clone, Copy, Debug, PartialEq, Eq)]
pub struct U256 {
    pub limbs: [u64; 4],
}

/// An unsigned 512-bit integer.
#[derive(Clone, Copy, Debug, PartialEq, Eq)]
pub struct U512 {
    pub limbs: [u64; 8],
}

pub open spec fn value4(l: [u64; 4]) -> nat {
    l[0] as nat + limb() * (l[1] as nat + limb() * (l[2] as nat + limb() * l[3] as nat))
}

pub open spec fn value8(l: [u64; 8]) -> nat {
    l[0] as nat + limb() * (l[1] as nat + limb() * (l[2] as nat + limb() * (l[3] as nat + limb() * (
    l[4] as nat + limb() * (l[5] as nat + limb() * (l[6] as nat + limb() * l[7] as nat))))))
}

pub proof fn lemma_value4_bound(l: [u64; 4])
    ensures
        value4(l) < modulus256(),
{
    let b = limb();
    let x0 = l[0] as nat;
    let x1 = l[1] as nat;
    let x2 = l[2] as nat;
    let x3 = l[3] as nat;
    assert(x2 + b * x3 < b * b) by (nonlinear_arith)
        requires x2 < b, x3 < b;
    assert(x1 + b * (x2 + b * x3) < b * b * b) by (nonlinear_arith)
        requires x1 < b, x2 + b * x3 < b * b;
    assert(x0 + b * (x1 + b * (x2 + b * x3)) < b * b * b * b) by (nonlinear_arith)
        requires x0 < b, x1 + b * (x2 + b * x3) < b * b * b;
}

pub proof fn lemma_value8_split(l: [u64; 8])
    ensures
        value8(l) == value4([l[0], l[1], l[2], l[3]]) + modulus256() * value4(
            [l[4], l[5], l[6], l[7]],
        ),
{
    let b = limb();
    let hi = value4([l[4], l[5], l[6], l[7]]);
    let x0 = l[0] as nat;
    let x1 = l[1] as nat;
    let x2 = l[2] as nat;
    let x3 = l[3] as nat;
    assert(x0 + b * (x1 + b * (x2 + b * (x3 + b * hi))) == x0 + b * (x1 + b * (x2 + b * x3)) + b
        * b * b * b * hi) by (nonlinear_arith);
}

pub proof fn lemma_value8_bound(l: [u64; 8])
    ensures
        value8(l) < modulus512(),
{
    lemma_value8_split(l);
    let lo = value4([l[0], l[1], l[2], l[3]]);
    let hi = value4([l[4], l[5], l[6], l[7]]);
    lemma_value4_bound([l[0], l[1], l[2], l[3]]);
    lemma_value4_bound([l[4], l[5], l[6], l[7]]);
    let m = modulus256();
    assert(lo + m * hi < m * m) by (nonlinear_arith)
        requires lo < m, hi < m;
}

impl U256 {
    pub open spec fn value(&self) -> nat {
        value4(self.limbs)
    }

    pub proof fn lemma_bound(&self)
        ensures
            self.value() < modulus256(),
    {
        lemma_value4_bound(self.limbs);
    }

    pub fn zero() -> (r: U256)
        ensures
            r.value() == 0,
    {
        U256 { limbs: [0, 0, 0, 0] }
    }

    pub fn max() -> (r: U256)
        ensures
            r.value() == modulus256() - 1,
    {
        U256 { limbs: [0xffff_ffff_ffff_ffff, 0xffff_ffff_ffff_ffff, 0xffff_ffff_ffff_ffff, 0xffff_ffff_ffff_ffff] }
    }

    pub fn from_u128(x: u128) -> (r: U256)
        ensures
            r.value() == x,
    {
        let lo = x as u64;
        let hi = (x >> 64u32) as u64;
        assert(x == lo as u128 + 0x1_0000_0000_0000_0000u128 * hi as u128) by (bit_vector)
            requires
                lo == x as u64,
                hi == (x >> 64u32) as u64,
        ;
        U256 { limbs: [lo, hi, 0, 0] }
    }

    /// The value as a `u128`, where it fits.
    pub fn to_u128(&self) -> (r: Option<u128>)
        ensures
            match r {
                Some(x) => x == self.value(),
                None => self.value() >= 0x1_0000_0000_0000_0000_0000_0000_0000_0000,
            },
    {
        let lo = self.limbs[0];
        let hi = self.limbs[1];
        if self.limbs[2] == 0 && self.limbs[3] == 0 {
            let x: u128 = lo as u128 | ((hi as u128) << 64u32);
            assert(x == lo as u128 + 0x1_0000_0000_0000_0000u128 * hi as u128) by (bit_vector)
                requires
                    x == lo as u128 | ((hi as u128) << 64u32),
            ;
            Some(x)
        } else {
            assert(self.value() >= 0x1_0000_0000_0000_0000_0000_0000_0000_0000) by (nonlinear_arith)
                requires
                    self.value() == self.limbs[0] as nat + limb() * (self.limbs[1] as nat + limb() * (
                    self.limbs[2] as nat + limb() * self.limbs[3] as nat)),
                    self.limbs[2] != 0 || self.limbs[3] != 0,
                    limb() == 0x1_0000_0000_0000_0000nat,
            ;
            None
        }
    }

    /// The sum, where it is known to fit.
    pub fn add_fitting(self, b: U256) -> (r: U256)
        requires
            self.value() + b.value() < modulus256(),
        ensures
            r.value() == self.value() + b.value(),
    {
        match self.checked_add(b) {
            Some(x) => x,
            None => self,
        }
    }

    /// The product, where it is known to fit.
    pub fn mul_fitting(self, b: U256) -> (r: U256)
        requires
            self.value() * b.value() < modulus256(),
        ensures
            r.value() == self.value() * b.value(),
    {
        match self.checked_mul(b) {
            Some(x) => x,
            None => self,
        }
    }

    /// The low 128 bits, where the value is known to fit in them.
    pub fn low_u128(&self) -> (r: u128)
        requires
            self.value() < 0x1_0000_0000_0000_0000_0000_0000_0000_0000nat,
        ensures
            r == self.value(),
    {
        match self.to_u128() {
            Some(x) => x,
            None => 0,
        }
    }

    /// Widens to 512 bits.
    pub fn widen(&self) -> (r: U512)
        ensures
            r.value() == self.value(),
    {
        let l = self.limbs;
        let r = U512 { limbs: [l[0], l[1], l[2], l[3], 0, 0, 0, 0] };
        proof {
            lemma_value8_split(r.limbs);
            assert(value4([r.limbs[0], r.limbs[1], r.limbs[2], r.limbs[3]]) == value4(l));
            assert(value4([0u64, 0u64, 0u64, 0u64]) == 0);
        }
        r
    }
}

impl U512 {
    pub open spec fn value(&self) -> nat {
        value8(self.limbs)
    }

    pub proof fn lemma_bound(&self)
        ensures
            self.value() < modulus512(),
    {
        lemma_value8_bound(self.limbs);
    }

    /// Relies on `ruint::Uint::is_zero`.
    #[verifier::external_body]
    pub(crate) fn value_is_zero(&self) -> (r: bool)
        ensures
            r == (self.value() == 0),
    {
        Wide::from_limbs(self.limbs).is_zero()
    }

    /// Narrows to 256 bits; `None` where the value does not fit.
    pub fn narrow(&self) -> (r: Option<U256>)
        ensures
            match r {
                Some(x) => x.value() == self.value(),
                None => self.value() >= modulus256(),
            },
    {
        let l = self.limbs;
        let lo = U256 { limbs: [l[0], l[1], l[2], l[3]] };
        let hi = U256 { limbs: [l[4], l[5], l[6], l[7]] };
        proof {
            lemma_value8_split(l);
            assert(lo.limbs == [l[0], l[1], l[2], l[3]]);
            assert(hi.limbs == [l[4], l[5], l[6], l[7]]);
        }
        if l[4] == 0 && l[5] == 0 && l[6] == 0 && l[7] == 0 {
            proof {
                assert(hi.value() == 0);
            }
            Some(lo)
        } else {
            proof {
                let m = modulus256();
                let b = limb();
                assert(hi.value() >= 1) by (nonlinear_arith)
                    requires
                        hi.value() == l[4] as nat + b * (l[5] as nat + b * (l[6] as nat + b * l[7] as nat)),
                        l[4] != 0 || l[5] != 0 || l[6] != 0 || l[7] != 0,
                        b > 0,
                ;
                assert(m * hi.value() >= m) by (nonlinear_arith)
                    requires hi.value() >= 1, m > 0;
            }
            None
        }
    }
}


impl U256 {
    /// Relies on `ruint::Uint::checked_add`: the sum, or `None` past 2^256 - 1.
    #[verifier::external_body]
    pub(crate) fn checked_add(self, b: U256) -> (r: Option<U256>)
        ensures
            match r {
                Some(x) => x.value() == self.value() + b.value() && self.value() + b.value() < modulus256(),
                None => self.value() + b.value() >= modulus256(),
            },
    {
        Word::from_limbs(self.limbs).checked_add(Word::from_limbs(b.limbs)).map(|x| U256 { limbs: x.into_limbs() })
    }

    /// Relies on `ruint::Uint::checked_sub`: the difference, or `None` below zero.
    #[verifier::external_body]
    pub(crate) fn checked_sub(self, b: U256) -> (r: Option<U256>)
        ensures
            match r {
                Some(x) => self.value() >= b.value() && x.value() == self.value() - b.value(),
                None => self.value() < b.value(),
            },
    {
        Word::from_limbs(self.limbs).checked_sub(Word::from_limbs(b.limbs)).map(|x| U256 { limbs: x.into_limbs() })
    }

    /// Relies on `ruint::Uint::checked_mul`: the product, or `None` past 2^256 - 1.
    #[verifier::external_body]
    pub(crate) fn checked_mul(self, b: U256) -> (r: Option<U256>)
        ensures
            match r {
                Some(x) => x.value() == self.value() * b.value() && self.value() * b.value() < modulus256(),
                None => self.value() * b.value() >= modulus256(),
            },
    {
        Word::from_limbs(self.limbs).checked_mul(Word::from_limbs(b.limbs)).map(|x| U256 { limbs: x.into_limbs() })
    }

    /// Relies on `ruint::Uint::checked_div`: the floored quotient, or `None` for a zero divisor.
    #[verifier::external_body]
    pub(crate) fn checked_div(self, b: U256) -> (r: Option<U256>)
        ensures
            match r {
                Some(x) => b.value() > 0 && x.value() == self.value() / b.value(),
                None => b.value() == 0,
            },
    {
        Word::from_limbs(self.limbs).checked_div(Word::from_limbs(b.limbs)).map(|x| U256 { limbs: x.into_limbs() })
    }

    /// Relies on `ruint::Uint::wrapping_mul`: the product modulo 2^256.
    #[verifier::external_body]
    pub(crate) fn wrapping_mul(self, b: U256) -> (r: U256)
        ensures
            r.value() == (self.value() * b.value()) % modulus256(),
    {
        U256 { limbs: Word::from_limbs(self.limbs).wrapping_mul(Word::from_limbs(b.limbs)).into_limbs() }
    }

    /// Relies on `ruint::Uint::saturating_add`: the sum, capped at 2^256 - 1.
    #[verifier::external_body]
    pub(crate) fn saturating_add(self, b: U256) -> (r: U256)
        ensures
            r.value() == if self.value() + b.value() < modulus256() {
                self.value() + b.value()
            } else {
                (modulus256() - 1) as nat
            },
    {
        U256 { limbs: Word::from_limbs(self.limbs).saturating_add(Word::from_limbs(b.limbs)).into_limbs() }
    }

    /// Relies on `ruint::Uint::saturating_sub`: the difference, floored at zero.
    #[verifier::external_body]
    pub(crate) fn saturating_sub(self, b: U256) -> (r: U256)
        ensures
            r.value() == if self.value() >= b.value() {
                (self.value() - b.value()) as nat
            } else {
                0
            },
    {
        U256 { limbs: Word::from_limbs(self.limbs).saturating_sub(Word::from_limbs(b.limbs)).into_limbs() }
    }

    /// Relies on `ruint::Uint::wrapping_shl`: `self * 2^n` modulo 2^256.
    #[verifier::external_body]
    pub(crate) fn shl(self, n: usize) -> (r: U256)
        ensures
            r.value() == (self.value() * pow2(n as nat)) % modulus256(),
    {
        U256 { limbs: Word::from_limbs(self.limbs).wrapping_shl(n).into_limbs() }
    }

    /// Relies on `ruint::Uint::wrapping_shr`: `self / 2^n`, floored.
    #[verifier::external_body]
    pub(crate) fn shr(self, n: usize) -> (r: U256)
        ensures
            r.value() == self.value() / pow2(n as nat),
    {
        U256 { limbs: Word::from_limbs(self.limbs).wrapping_shr(n).into_limbs() }
    }

    /// Relies on `ruint::Uint`'s `PartialOrd`: whether `self < b`.
    #[verifier::external_body]
    pub(crate) fn lt(&self, b: &U256) -> (r: bool)
        ensures
            r == (self.value() < b.value()),
    {
        Word::from_limbs(self.limbs) < Word::from_limbs(b.limbs)
    }

    /// Relies on `ruint::Uint::is_zero`.
    #[verifier::external_body]
    pub(crate) fn is_zero(&self) -> (r: bool)
        ensures
            r == (self.value() == 0),
    {
        Word::from_limbs(self.limbs).is_zero()
    }

    /// Relies on `ruint::Uint::bit`: bit `i` of the binary expansion.
    #[verifier::external_body]
    pub(crate) fn bit(&self, i: usize) -> (r: bool)
        requires
            i < 256,
        ensures
            r == ((self.value() / pow2(i as nat)) % 2 == 1),
    {
        Word::from_limbs(self.limbs).bit(i)
    }

    /// Relies on `ruint::Uint::leading_zeros`: 256 less the bit length.
    #[verifier::external_body]
    pub(crate) fn leading_zeros(&self) -> (r: usize)
        ensures
            r <= 256,
            self.value() == 0 <==> r == 256,
            self.value() > 0 ==> pow2((255 - r) as nat) <= self.value() && self.value() < pow2(
                (256 - r) as nat,
            ),
    {
        Word::from_limbs(self.limbs).leading_zeros()
    }
}

impl U512 {
    /// Relies on `ruint::Uint::checked_sub`: the difference, or `None` below zero.
    #[verifier::external_body]
    pub(crate) fn checked_sub(self, b: U512) -> (r: Option<U512>)
        ensures
            match r {
                Some(x) => self.value() >= b.value() && x.value() == self.value() - b.value(),
                None => self.value() < b.value(),
            },
    {
        Wide::from_limbs(self.limbs).checked_sub(Wide::from_limbs(b.limbs)).map(|x| U512 { limbs: x.into_limbs() })
    }

    /// Relies on `ruint::Uint::checked_mul`: the product, or `None` past 2^512 - 1.
    #[verifier::external_body]
    pub(crate) fn checked_mul(self, b: U512) -> (r: Option<U512>)
        ensures
            match r {
                Some(x) => x.value() == self.value() * b.value() && self.value() * b.value() < modulus512(),
                None => self.value() * b.value() >= modulus512(),
            },
    {
        Wide::from_limbs(self.limbs).checked_mul(Wide::from_limbs(b.limbs)).map(|x| U512 { limbs: x.into_limbs() })
    }

    /// Relies on `ruint::Uint::checked_div`: the floored quotient, or `None` for a zero divisor.
    #[verifier::external_body]
    pub(crate) fn checked_div(self, b: U512) -> (r: Option<U512>)
        ensures
            match r {
                Some(x) => b.value() > 0 && x.value() == self.value() / b.value(),
                None => b.value() == 0,
            },
    {
        Wide::from_limbs(self.limbs).checked_div(Wide::from_limbs(b.limbs)).map(|x| U512 { limbs: x.into_limbs() })
    }

    /// Relies on `ruint::Uint::overflowing_mul`: the low 512 bits of the product.
    #[verifier::external_body]
    pub(crate) fn wrapping_mul(self, b: U512) -> (r: U512)
        ensures
            r.value() == (self.value() * b.value()) % modulus512(),
    {
        U512 { limbs: Wide::from_limbs(self.limbs).overflowing_mul(Wide::from_limbs(b.limbs)).0.into_limbs() }
    }

    /// Relies on `ruint::Uint::wrapping_shr`: `self / 2^n`, floored.
    #[verifier::external_body]
    pub(crate) fn shr(self, n: usize) -> (r: U512)
        ensures
            r.value() == self.value() / pow2(n as nat),
    {
        U512 { limbs: Wide::from_limbs(self.limbs).wrapping_shr(n).into_limbs() }
    }
}

} // verus!
