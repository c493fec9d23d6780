use vstd::arithmetic::div_mod::{
    lemma_fundamental_div_mod, lemma_fundamental_div_mod_converse,
};
use vstd::prelude::*;

verus! {

/// Weight of the high half of a [`U256`]: 2^128.
pub open spec fn base128() -> nat {
    0x100000000000000000000000000000000nat
}

/// One past the largest representable 256-bit value: 2^256.
pub open spec fn limit256() -> nat {
    base128() * base128()
}

/// An unsigned 256-bit integer, split into two 128-bit halves.
///
/// It serves both as the wide arithmetic domain in which gas costs are
/// computed before truncation to machine width, and as the value type for
/// storage slots (where only equality and zero-ness are ever consulted).
#[derive(Clone, Copy, Debug, PartialEq, Eq, Structural, Hash)]
pub struct U256 {
    pub lo: u128,
    pub hi: u128,
}

impl View for U256 {
    type V = nat;

    open spec fn view(&self) -> nat {
        (self.lo + self.hi * base128()) as nat
    }
}

/// Two 256-bit words are structurally equal exactly when they denote the
/// same number.
pub proof fn lemma_u256_eq(a: U256, b: U256)
    ensures
        (a@ == b@) <==> (a == b),
{
    if a@ == b@ {
        assert(a.lo + a.hi * base128() == b.lo + b.hi * base128());
        if a.hi != b.hi {
            if a.hi > b.hi {
                assert(a.hi * base128() >= b.hi * base128() + base128())
                    by (nonlinear_arith)
                    requires a.hi >= b.hi + 1,
                ;
            } else {
                assert(b.hi * base128() >= a.hi * base128() + base128())
                    by (nonlinear_arith)
                    requires b.hi >= a.hi + 1,
                ;
            }
            assert(false);
        }
        assert(a.lo == b.lo);
    }
}

impl U256 {
    /// The all-zero word, also the default value of an absent storage slot.
    pub fn zero() -> (r: U256)
        ensures
            r@ == 0,
    {
        U256 { lo: 0, hi: 0 }
    }

    /// The word denoting one.
    pub fn one() -> (r: U256)
        ensures
            r@ == 1,
    {
        U256 { lo: 1, hi: 0 }
    }

    pub fn from_u64(v: u64) -> (r: U256)
        ensures
            r@ == v,
    {
        U256 { lo: v as u128, hi: 0 }
    }

    pub fn from_u128(v: u128) -> (r: U256)
        ensures
            r@ == v,
    {
        U256 { lo: v, hi: 0 }
    }

    pub fn is_zero(&self) -> (r: bool)
        ensures
            r == (self@ == 0),
    {
        proof {
            if self.hi != 0 {
                assert(self.hi * base128() >= base128()) by (nonlinear_arith)
                    requires self.hi >= 1,
                ;
            }
        }
        self.lo == 0 && self.hi == 0
    }

    /// Structural equality, lifted to the numeric view.
    pub fn eq_value(&self, other: &U256) -> (r: bool)
        ensures
            r == (self@ == other@),
    {
        proof {
            lemma_u256_eq(*self, *other);
        }
        self.lo == other.lo && self.hi == other.hi
    }

    pub fn le(&self, other: &U256) -> (r: bool)
        ensures
            r == (self@ <= other@),
    {
        proof {
            if self.hi < other.hi {
                assert(self@ <= other@) by (nonlinear_arith)
                    requires
                        self.hi + 1 <= other.hi,
                        self.lo < base128(),
                        self@ == self.lo + self.hi * base128(),
                        other@ == other.lo + other.hi * base128(),
                ;
            }
            if self.hi > other.hi {
                assert(self@ > other@) by (nonlinear_arith)
                    requires
                        other.hi + 1 <= self.hi,
                        other.lo < base128(),
                        self@ == self.lo + self.hi * base128(),
                        other@ == other.lo + other.hi * base128(),
                ;
            }
        }
        self.hi < other.hi || (self.hi == other.hi && self.lo <= other.lo)
    }

    /// Sum, or `None` when it does not fit in 256 bits.
    pub fn checked_add(&self, other: &U256) -> (r: Option<U256>)
        ensures
            self@ + other@ < limit256() ==> (r is Some && r->0@ == self@ + other@),
            self@ + other@ >= limit256() ==> r is None,
    {
        let (lo, carry): (u128, u128) = match self.lo.checked_add(other.lo) {
            Some(s) => (s, 0),
            None => (self.lo.wrapping_add(other.lo), 1),
        };
        let hi1 = match self.hi.checked_add(other.hi) {
            Some(h) => h,
            None => {
                proof {
                    assert(self@ + other@ >= limit256()) by (nonlinear_arith)
                        requires
                            self.hi + other.hi > u128::MAX,
                            u128::MAX + 1 == base128(),
                            self@ == self.lo + self.hi * base128(),
                            other@ == other.lo + other.hi * base128(),
                            limit256() == base128() * base128(),
                    ;
                }
                return None;
            },
        };
        let hi = match hi1.checked_add(carry) {
            Some(h) => h,
            None => {
                proof {
                    assert(self@ + other@ >= limit256()) by (nonlinear_arith)
                        requires
                            self.hi + other.hi + carry > u128::MAX,
                            carry == 1,
                            self.lo + other.lo > u128::MAX,
                            u128::MAX + 1 == base128(),
                            self@ == self.lo + self.hi * base128(),
                            other@ == other.lo + other.hi * base128(),
                            limit256() == base128() * base128(),
                    ;
                }
                return None;
            },
        };
        let r = U256 { lo, hi };
        proof {
            assert(r@ == self@ + other@ && self@ + other@ < limit256())
                by (nonlinear_arith)
                requires
                    u128::MAX + 1 == base128(),
                    lo + carry * base128() == self.lo + other.lo,
                    hi == self.hi + other.hi + carry,
                    hi < base128(),
                    lo < base128(),
                    r@ == lo + hi * base128(),
                    self@ == self.lo + self.hi * base128(),
                    other@ == other.lo + other.hi * base128(),
                    limit256() == base128() * base128(),
            ;
        }
        Some(r)
    }

    /// Difference, or `None` when the subtrahend is larger.
    pub fn checked_sub(&self, other: &U256) -> (r: Option<U256>)
        ensures
            self@ >= other@ ==> (r is Some && r->0@ == self@ - other@),
            self@ < other@ ==> r is None,
    {
        proof {
            lemma_u256_lt_parts(*self, *other);
        }
        let (lo, borrow): (u128, u128) = match self.lo.checked_sub(other.lo) {
            Some(d) => (d, 0),
            None => (self.lo.wrapping_sub(other.lo), 1),
        };
        let hi1 = match self.hi.checked_sub(other.hi) {
            Some(h) => h,
            None => {
                return None;
            },
        };
        let hi = match hi1.checked_sub(borrow) {
            Some(h) => h,
            None => {
                return None;
            },
        };
        let r = U256 { lo, hi };
        proof {
            assert(r@ == self@ - other@) by (nonlinear_arith)
                requires
                    u128::MAX + 1 == base128(),
                    lo == self.lo - other.lo + borrow * base128(),
                    hi == self.hi - other.hi - borrow,
                    r@ == lo + hi * base128(),
                    self@ == self.lo + self.hi * base128(),
                    other@ == other.lo + other.hi * base128(),
            ;
        }
        Some(r)
    }

    /// Quotient and remainder by 32, the word size used by copy-style costs.
    pub fn div_rem_32(&self) -> (r: (U256, u64))
        ensures
            r.0@ == self@ / 32,
            r.1 == self@ % 32,
    {
        proof {
            lemma_fundamental_div_mod(self.hi as int, 32);
            lemma_fundamental_div_mod(self.lo as int, 32);
        }
        let q_hi = self.hi / 32;
        let r_hi = self.hi % 32;
        let q_lo = r_hi * 0x8000000000000000000000000000000 + self.lo / 32;
        let rem = (self.lo % 32) as u64;
        let q = U256 { lo: q_lo, hi: q_hi };
        proof {
            assert(self@ == 32 * q@ + rem && rem < 32) by (nonlinear_arith)
                requires
                    self.hi == 32 * q_hi + r_hi,
                    0 <= r_hi < 32,
                    self.lo == 32 * (self.lo / 32) + (self.lo % 32),
                    0 <= self.lo % 32 < 32,
                    rem == self.lo % 32,
                    q_lo == r_hi * 0x8000000000000000000000000000000 + self.lo / 32,
                    q@ == q_lo + q_hi * base128(),
                    self@ == self.lo + self.hi * base128(),
            ;
            lemma_fundamental_div_mod_converse(self@ as int, 32, q@ as int, rem as int);
        }
        (q, rem)
    }

    /// Quotient by 8: the byte-length rounding used by the EXP cost.
    pub fn div_8(&self) -> (r: U256)
        ensures
            r@ == self@ / 8,
    {
        proof {
            lemma_fundamental_div_mod(self.hi as int, 8);
            lemma_fundamental_div_mod(self.lo as int, 8);
        }
        let q_hi = self.hi / 8;
        let r_hi = self.hi % 8;
        let q_lo = r_hi * 0x20000000000000000000000000000000 + self.lo / 8;
        let rem = self.lo % 8;
        let q = U256 { lo: q_lo, hi: q_hi };
        proof {
            assert(self@ == 8 * q@ + rem && rem < 8) by (nonlinear_arith)
                requires
                    self.hi == 8 * q_hi + r_hi,
                    0 <= r_hi < 8,
                    self.lo == 8 * (self.lo / 8) + (self.lo % 8),
                    0 <= self.lo % 8 < 8,
                    rem == self.lo % 8,
                    q_lo == r_hi * 0x20000000000000000000000000000000 + self.lo / 8,
                    q@ == q_lo + q_hi * base128(),
                    self@ == self.lo + self.hi * base128(),
            ;
            lemma_fundamental_div_mod_converse(self@ as int, 8, q@ as int, rem as int);
        }
        q
    }
}

/// Comparing halves decides the order of the denoted numbers.
pub proof fn lemma_u256_lt_parts(a: U256, b: U256)
    ensures
        (a@ < b@) <==> (a.hi < b.hi || (a.hi == b.hi && a.lo < b.lo)),
{
    if a.hi < b.hi {
        assert(a@ < b@) by (nonlinear_arith)
            requires
                a.hi + 1 <= b.hi,
                a.lo < base128(),
                a@ == a.lo + a.hi * base128(),
                b@ == b.lo + b.hi * base128(),
        ;
    }
    if a.hi > b.hi {
        assert(a@ > b@) by (nonlinear_arith)
            requires
                b.hi + 1 <= a.hi,
                b.lo < base128(),
                a@ == a.lo + a.hi * base128(),
                b@ == b.lo + b.hi * base128(),
        ;
    }
}

} // verus!

verus! {

/// Every 256-bit word denotes a number below 2^256.
pub proof fn lemma_u256_bound(a: U256)
    ensures
        a@ < limit256(),
{
    assert(a@ < limit256()) by (nonlinear_arith)
        requires
            a.lo <= u128::MAX,
            a.hi <= u128::MAX,
            u128::MAX + 1 == base128(),
            a@ == a.lo + a.hi * base128(),
            limit256() == base128() * base128(),
    ;
}

} // verus!
