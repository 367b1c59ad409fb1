use vstd::prelude::*;
use vstd::arithmetic::power2::lemma2_to64;
use vstd::arithmetic::power2::lemma2_to64_rest;
use vstd::arithmetic::power2::lemma_pow2_strictly_increases;
use vstd::arithmetic::power2::lemma_pow2_unfold;
use vstd::arithmetic::power2::pow2;

verus! {

/// A single-precision binary number, held as its 32-bit pattern: one sign
/// bit, eight exponent bits, twenty-three fraction bits.
///
/// The library carries scalars around and compares them bit for bit; the
/// only arithmetic it does on them is the conversion between an opacity and
/// an alpha channel.
#[derive(Debug, Clone, Copy, PartialEq, Eq, Structural)]
pub struct Scalar {
    pub bits: u32,
}

impl Scalar {
    /// Whether the sign bit is set.
    pub open spec fn sign_bit(self) -> bool {
        self.bits >= 0x8000_0000
    }

    /// The biased exponent, from 0 to 255.
    pub open spec fn exponent(self) -> int {
        (self.bits as int / 0x80_0000) % 0x100
    }

    /// The twenty-three fraction bits.
    pub open spec fn fraction(self) -> int {
        self.bits as int % 0x80_0000
    }

    /// Whether the scalar is not a number.
    pub open spec fn is_nan(self) -> bool {
        self.exponent() == 255 && self.fraction() != 0
    }

    /// Whether the scalar is infinite.
    pub open spec fn is_infinite(self) -> bool {
        self.exponent() == 255 && self.fraction() == 0
    }

    /// The integer `m` such that a finite scalar has the magnitude
    /// `m * 2^scale()`.
    pub open spec fn significand(self) -> int {
        if self.exponent() == 0 {
            self.fraction()
        } else {
            self.fraction() + 0x80_0000
        }
    }

    /// The power of two by which the significand of a finite scalar is
    /// scaled.
    pub open spec fn scale(self) -> int {
        if self.exponent() == 0 {
            -149
        } else {
            self.exponent() - 150
        }
    }

    /// The alpha channel for this opacity: 255 times the scalar, rounded to
    /// the nearest integer with halves going up, and kept within 0..=255.
    /// A negative scalar gives 0, and so does one that is not a number.
    pub open spec fn channel(self) -> u8 {
        if self.is_nan() || self.sign_bit() {
            0
        } else if self.is_infinite() || self.scale() >= 0 {
            255
        } else {
            let d = pow2((-self.scale()) as nat) as int;
            let q = (510 * self.significand() + d) / (2 * d);
            if q > 255 {
                255
            } else {
                q as u8
            }
        }
    }

    /// Whether this scalar is the one nearest to `a / 255`: zero for zero;
    /// else positive, with the exponent of `a / 255` and a significand that
    /// is at most half a unit away from it.
    pub open spec fn is_fraction_of(self, a: u8) -> bool {
        if a == 0 {
            self.bits == 0
        } else {
            let d = pow2((-self.scale()) as nat) as int;
            &&& !self.sign_bit()
            &&& 1 <= self.exponent() <= 127
            &&& 255 * 0x80_0000 <= a * d < 255 * 0x100_0000
            &&& -255 <= 2 * (255 * self.significand() - a * d) <= 255
        }
    }

    /// The scalar with the given bit pattern.
    pub fn from_bits(bits: u32) -> (r: Scalar)
        ensures
            r.bits == bits,
    {
        Scalar { bits }
    }

    /// The bit pattern of the scalar.
    pub fn to_bits(self) -> (r: u32)
        ensures
            r == self.bits,
    {
        self.bits
    }

    /// The alpha channel for this opacity.
    pub fn to_channel(self) -> (r: u8)
        ensures
            r == self.channel(),
    {
        let e: u32 = (self.bits / 0x80_0000) % 0x100;
        let f: u32 = self.bits % 0x80_0000;
        if self.bits >= 0x8000_0000 {
            return 0;
        }
        if e == 255 {
            return if f != 0 {
                0
            } else {
                255
            };
        }
        if e >= 150 {
            return 255;
        }
        let m: u64 = if e == 0 {
            f as u64
        } else {
            f as u64 + 0x80_0000
        };
        let shift: u32 = if e == 0 {
            149
        } else {
            150 - e
        };
        assert(shift == -self.scale());
        assert(m == self.significand());
        if shift > 40 {
            proof {
                lemma2_to64_rest();
                lemma_pow2_strictly_increases(40, shift as nat);
                let d = pow2(shift as nat) as int;
                assert(510 * m + d < 2 * d);
                assert((510 * m + d) / (2 * d) == 0) by (nonlinear_arith)
                    requires
                        0 <= 510 * m + d < 2 * d,
                ;
            }
            return 0;
        }
        let mut d: u64 = 1;
        let mut i: u32 = 0;
        proof {
            lemma2_to64();
            lemma2_to64_rest();
        }
        while i < shift
            invariant
                i <= shift <= 40,
                d == pow2(i as nat),
                d <= pow2(40),
                pow2(40) == 0x100_0000_0000,
            decreases shift - i,
        {
            proof {
                lemma_pow2_unfold((i + 1) as nat);
                if i + 1 < 40 {
                    lemma_pow2_strictly_increases((i + 1) as nat, 40);
                }
            }
            d = d * 2;
            i += 1;
        }
        let q: u64 = (510 * m + d) / (2 * d);
        if q > 255 {
            255
        } else {
            q as u8
        }
    }

    /// The opacity of an alpha channel: the scalar nearest to `a / 255`.
    pub fn from_channel(a: u8) -> (r: Scalar)
        ensures
            r == fraction_of(a),
            r.is_fraction_of(a),
    {
        if a == 0 {
            proof {
                lemma_fraction_unique(Scalar { bits: 0 }, fraction_of(a), a);
            }
            return Scalar { bits: 0 };
        }
        let mut n: u64 = a as u64;
        let mut s: u32 = 0;
        proof {
            lemma2_to64();
        }
        while n < 255
            invariant
                a >= 1,
                1 <= n < 510,
                s <= 8,
                n == a * pow2(s as nat),
            decreases 510 - n,
        {
            proof {
                lemma_pow2_unfold((s + 1) as nat);
                assert(s < 8) by {
                    if s == 8 {
                        lemma2_to64();
                        assert(a * 256 >= 256) by (nonlinear_arith)
                            requires
                                a >= 1,
                        ;
                    }
                }
                assert(2 * n == a * pow2((s + 1) as nat)) by (nonlinear_arith)
                    requires
                        n == a * pow2(s as nat),
                        pow2((s + 1) as nat) == 2 * pow2(s as nat),
                ;
            }
            n = n * 2;
            s += 1;
        }
        let m: u64 = (n * 0x100_0000 + 255) / 510;
        let bits: u64 = (127 - s as u64) * 0x80_0000 + (m - 0x80_0000);
        assert(0x80_0000 <= m <= 0x100_0000);
        let r = Scalar { bits: bits as u32 };
        proof {
            lemma_fraction_built(a, s as nat);
            lemma_fraction_unique(r, fraction_of(a), a);
        }
        r
    }
}

/// The number of times that `a` is doubled to reach 255 or more.
pub open spec fn doublings(a: u8) -> nat {
    if a >= 255 {
        0
    } else if a >= 128 {
        1
    } else if a >= 64 {
        2
    } else if a >= 32 {
        3
    } else if a >= 16 {
        4
    } else if a >= 8 {
        5
    } else if a >= 4 {
        6
    } else if a >= 2 {
        7
    } else {
        8
    }
}

/// The bit pattern of the scalar nearest to `a / 255`, where `a` doubled
/// `s` times lies between 255 and 509.
pub open spec fn fraction_bits(a: u8, s: nat) -> int {
    let n = a * pow2(s);
    let m = (n * 0x100_0000 + 255) / 510;
    (127 - s) * 0x80_0000 + (m - 0x80_0000)
}

proof fn lemma_fraction_built(a: u8, s: nat)
    requires
        a >= 1,
        s <= 8,
        255 <= a * pow2(s) < 510,
    ensures
        0 <= fraction_bits(a, s) < 0x4000_0000,
        (Scalar { bits: fraction_bits(a, s) as u32 }).is_fraction_of(a),
{
    let n = (a * pow2(s)) as int;
    let m = (n * 0x100_0000 + 255) / 510;
    let bits = fraction_bits(a, s);
    lemma2_to64();
    lemma2_to64_rest();
    let e = 127 - s as int;
    assert(0x80_0000 <= m <= 0x100_0000);
    if m == 0x100_0000 {
        // Rounding up to the next power of two cannot happen: n would have
        // to be at least 510 - 1/2^24.
        assert(n * 0x100_0000 + 255 >= 510 * 0x100_0000);
        assert(false);
    }
    assert(bits == e * 0x80_0000 + (m - 0x80_0000));
    assert(0 <= bits < 0x4000_0000) by (nonlinear_arith)
        requires
            bits == e * 0x80_0000 + (m - 0x80_0000),
            119 <= e <= 127,
            0 <= m - 0x80_0000 < 0x80_0000,
    ;
    let r = Scalar { bits: bits as u32 };
    assert(r.bits == bits);
    assert(r.exponent() == e) by {
        assert((e * 0x80_0000 + (m - 0x80_0000)) / 0x80_0000 == e) by (nonlinear_arith)
            requires
                0 <= m - 0x80_0000 < 0x80_0000,
        ;
    }
    assert(r.fraction() == m - 0x80_0000) by {
        assert((e * 0x80_0000 + (m - 0x80_0000)) % 0x80_0000 == m - 0x80_0000)
            by (nonlinear_arith)
            requires
                0 <= m - 0x80_0000 < 0x80_0000,
        ;
    }
    assert(r.significand() == m);
    assert(-r.scale() == 23 + s);
    let d = pow2((23 + s) as nat) as int;
    vstd::arithmetic::power2::lemma_pow2_adds(23, s);
    assert(d == 0x80_0000 * pow2(s));
    assert(a * d == n * 0x80_0000) by (nonlinear_arith)
        requires
            d == 0x80_0000 * pow2(s),
            n == a * pow2(s),
    ;
    // m is n * 2^24 / 510 rounded to the nearest integer.
    assert(510 * m <= n * 0x100_0000 + 255 < 510 * m + 510) by (nonlinear_arith)
        requires
            m == (n * 0x100_0000 + 255) / 510,
    ;
}

/// Every alpha channel has an opacity: some scalar is the one nearest to
/// `a / 255`.
pub proof fn lemma_fraction_exists(a: u8)
    ensures
        fraction_of(a).is_fraction_of(a),
{
    if a == 0 {
        lemma_fraction_unique(Scalar { bits: 0 }, fraction_of(a), a);
    } else {
        lemma2_to64();
        let s = doublings(a);
        let p = pow2(s) as int;
        assert(p == 1 || p == 2 || p == 4 || p == 8 || p == 16 || p == 32 || p == 64 || p == 128
            || p == 256);
        assert(255 <= a * p < 510) by (nonlinear_arith)
            requires
                a >= 255 ==> p == 1,
                128 <= a < 255 ==> p == 2,
                64 <= a < 128 ==> p == 4,
                32 <= a < 64 ==> p == 8,
                16 <= a < 32 ==> p == 16,
                8 <= a < 16 ==> p == 32,
                4 <= a < 8 ==> p == 64,
                2 <= a < 4 ==> p == 128,
                a == 1 ==> p == 256,
                1 <= a <= 255,
        ;
        lemma_fraction_built(a, s);
        lemma_fraction_unique(Scalar { bits: fraction_bits(a, s) as u32 }, fraction_of(a), a);
    }
}

/// The opacity of an alpha channel: the scalar nearest to `a / 255`.
pub open spec fn fraction_of(a: u8) -> Scalar {
    choose|x: Scalar| x.is_fraction_of(a)
}

proof fn lemma_bits_from_parts(x: Scalar, y: Scalar)
    requires
        !x.sign_bit(),
        !y.sign_bit(),
        x.exponent() == y.exponent(),
        x.fraction() == y.fraction(),
    ensures
        x == y,
{
    let p = x.bits as int;
    let q = y.bits as int;
    assert(p / 0x80_0000 < 0x100 && q / 0x80_0000 < 0x100);
    assert(p / 0x80_0000 == q / 0x80_0000);
    assert(p == 0x80_0000 * (p / 0x80_0000) + p % 0x80_0000);
    assert(q == 0x80_0000 * (q / 0x80_0000) + q % 0x80_0000);
}

/// At most one scalar is the one nearest to `a / 255`.
pub proof fn lemma_fraction_unique(x: Scalar, y: Scalar, a: u8)
    requires
        x.is_fraction_of(a),
    ensures
        y.is_fraction_of(a) ==> x == y,
        fraction_of(a) == x,
{
    assert forall|z: Scalar| z.is_fraction_of(a) implies x == z by {
        if a != 0 {
            let j = (-x.scale()) as nat;
            let k = (-z.scale()) as nat;
            if j < k {
                lemma_pow2_strictly_increases(j, (k - 1) as nat + 1);
                lemma_pow2_unfold(k);
                if j < k - 1 {
                    lemma_pow2_strictly_increases(j, (k - 1) as nat);
                }
                assert(pow2(k) >= 2 * pow2(j));
                assert(a * pow2(k) >= 2 * (a * pow2(j))) by (nonlinear_arith)
                    requires
                        pow2(k) >= 2 * pow2(j),
                        a > 0,
                ;
                assert(false);
            }
            if k < j {
                lemma_pow2_unfold(j);
                if k < j - 1 {
                    lemma_pow2_strictly_increases(k, (j - 1) as nat);
                }
                assert(pow2(j) >= 2 * pow2(k));
                assert(a * pow2(j) >= 2 * (a * pow2(k))) by (nonlinear_arith)
                    requires
                        pow2(j) >= 2 * pow2(k),
                        a > 0,
                ;
                assert(false);
            }
            assert(x.exponent() == z.exponent());
            assert(x.significand() == z.significand());
            lemma_bits_from_parts(x, z);
        }
    }
}

/// The alpha channel of the opacity of an alpha channel is that channel.
pub proof fn lemma_channel_of_fraction(x: Scalar, a: u8)
    requires
        x.is_fraction_of(a),
    ensures
        x.channel() == a,
{
    if a == 0 {
        assert(x.exponent() == 0 && x.fraction() == 0);
        lemma2_to64_rest();
        let d = pow2(149) as int;
        lemma_pow2_strictly_increases(0, 149);
        lemma2_to64();
        assert((0 + d) / (2 * d) == 0) by (nonlinear_arith)
            requires
                d > 0,
        ;
    } else {
        let k = (-x.scale()) as nat;
        let d = pow2(k) as int;
        let m = x.significand();
        assert(23 <= k <= 149);
        lemma2_to64();
        if k > 23 {
            lemma_pow2_strictly_increases(23, k);
        }
        assert(d >= 0x80_0000);
        assert(!x.is_nan() && !x.is_infinite());
        assert((510 * m + d) / (2 * d) == a) by (nonlinear_arith)
            requires
                -255 <= 2 * (255 * m - a * d) <= 255,
                d >= 0x80_0000,
        ;
    }
}

} // verus!
