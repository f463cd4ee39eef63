//! IEEE-754 singles, held as their 32 bits, and their conversions from and to the
//! fixed-point formats of the wire. Everything is computed on integers.

use vstd::prelude::*;
use vstd::bits::lemma_u32_shr_is_div;
use vstd::arithmetic::div_mod::{
    lemma_basic_div,
    lemma_div_by_multiple,
    lemma_div_multiples_vanish_quotient,
};
use vstd::arithmetic::power2::{
    lemma2_to64,
    lemma_pow2_adds,
    lemma_pow2_pos,
    lemma_pow2_strictly_increases,
    lemma_pow2_unfold,
    pow2,
};

verus! {

/// An IEEE-754 single, held as its 32 bits: a sign bit, eight bits of exponent
/// and 23 bits of fraction.
#[derive(Clone, Copy, Debug, PartialEq, Eq, Structural)]
pub struct F32 {
    pub bits: u32,
}

impl F32 {
    /// Whether the sign bit is set. It may be set on a zero and on a NaN.
    pub open spec fn sign(self) -> bool {
        self.bits >= 0x8000_0000
    }

    /// The bits without the sign bit.
    pub open spec fn magnitude(self) -> int {
        self.bits as int % 0x8000_0000
    }

    /// The eight bits of the exponent.
    pub open spec fn exp_field(self) -> int {
        self.magnitude() / 0x80_0000
    }

    /// The 23 bits of the fraction.
    pub open spec fn frac_field(self) -> int {
        self.magnitude() % 0x80_0000
    }

    /// Whether this is not a number.
    pub open spec fn nan(self) -> bool {
        self.magnitude() > 0x7f80_0000
    }

    /// Whether this is an infinity.
    pub open spec fn infinite(self) -> bool {
        self.magnitude() == 0x7f80_0000
    }

    /// Whether this is a number that is not an infinity.
    pub open spec fn finite(self) -> bool {
        self.magnitude() < 0x7f80_0000
    }

    /// The integer `s` of the form `s * 2^e` of the absolute value of a finite
    /// single.
    pub open spec fn significand(self) -> int {
        if self.exp_field() == 0 {
            self.frac_field()
        } else {
            0x80_0000 + self.frac_field()
        }
    }

    /// The exponent `e` of the form `s * 2^e` of the absolute value of a finite
    /// single: at least -149.
    pub open spec fn exponent(self) -> int {
        if self.exp_field() == 0 {
            -149
        } else {
            self.exp_field() - 150
        }
    }

    /// The absolute value of a finite single, counted in units of `2^-149`, of
    /// which every finite single is a whole number.
    pub open spec fn scaled(self) -> int {
        self.significand() * pow2((self.exponent() + 149) as nat)
    }

    /// The absolute value of a finite single times `2^k`, rounded down to an
    /// integer.
    pub open spec fn floor_mul_pow2(self, k: nat) -> int {
        (self.scaled() * pow2(k)) / (pow2(149) as int)
    }

    /// A number by which singles that are not NaN are ordered as their values
    /// are. Both zeros have the number 0.
    pub open spec fn ordinal(self) -> int {
        if self.sign() {
            -self.magnitude()
        } else {
            self.magnitude()
        }
    }

    /// The order `<` of IEEE-754: false where either side is a NaN.
    pub open spec fn lt_spec(self, other: F32) -> bool {
        !self.nan() && !other.nan() && self.ordinal() < other.ordinal()
    }

    /// The order `<=` of IEEE-754: false where either side is a NaN.
    pub open spec fn le_spec(self, other: F32) -> bool {
        !self.nan() && !other.nan() && self.ordinal() <= other.ordinal()
    }

    /// The single with these bits.
    pub fn from_bits(bits: u32) -> (r: Self)
        ensures
            r.bits == bits,
    {
        F32 { bits }
    }

    /// The bits of the single.
    pub fn to_bits(self) -> (r: u32)
        ensures
            r == self.bits,
    {
        self.bits
    }

    /// Whether the sign bit is set.
    pub fn is_sign_negative(self) -> (r: bool)
        ensures
            r == self.sign(),
    {
        self.bits >= 0x8000_0000
    }

    /// Whether this is not a number.
    pub fn is_nan(self) -> (r: bool)
        ensures
            r == self.nan(),
    {
        self.bits % 0x8000_0000 > 0x7f80_0000
    }

    /// The number by which the single is ordered.
    fn order(self) -> (r: i64)
        ensures
            r == self.ordinal(),
    {
        let mag: i64 = (self.bits % 0x8000_0000) as i64;
        if self.bits >= 0x8000_0000 {
            -mag
        } else {
            mag
        }
    }

    /// Whether `self < other`, as IEEE-754 orders them.
    pub fn lt(self, other: F32) -> (r: bool)
        ensures
            r == self.lt_spec(other),
    {
        !self.is_nan() && !other.is_nan() && self.order() < other.order()
    }

    /// Whether `self <= other`, as IEEE-754 orders them.
    pub fn le(self, other: F32) -> (r: bool)
        ensures
            r == self.le_spec(other),
    {
        !self.is_nan() && !other.is_nan() && self.order() <= other.order()
    }

    /// Whether the single is a fixed-point number: finite, with the given sign,
    /// and of the absolute value `mag / 2^frac_bits`.
    pub open spec fn is_fixed(self, negative: bool, mag: int, frac_bits: nat) -> bool {
        &&& self.finite()
        &&& self.sign() == negative
        &&& self.scaled() * pow2(frac_bits) == mag * pow2(149)
    }

    /// The single that is this fixed-point number: there is at most one.
    pub open spec fn fixed(negative: bool, mag: int, frac_bits: nat) -> F32 {
        choose|f: F32| f.is_fixed(negative, mag, frac_bits)
    }

    /// Of two singles that are not NaN, the one with the greater bits behind the
    /// sign has the greater absolute value: the bits order the singles as their
    /// values do. An infinity counts as two to the power of 128.
    pub proof fn lemma_scaled_monotone(self, other: F32)
        requires
            !self.nan(),
            !other.nan(),
            self.magnitude() < other.magnitude(),
        ensures
            self.scaled() < other.scaled(),
    {
        let ea = (self.exponent() + 149) as nat;
        let eb = (other.exponent() + 149) as nat;
        let pa = pow2(ea);
        let pb = pow2(eb);
        lemma_pow2_pos(ea);
        lemma_pow2_pos(eb);
        if self.exp_field() == other.exp_field() {
            assert(self.significand() * pa < other.significand() * pa) by (nonlinear_arith)
                requires
                    self.significand() < other.significand(),
                    pa > 0,
            ;
        } else {
            assert(self.exp_field() < other.exp_field());
            assert(other.significand() * pb >= 0x80_0000) by (nonlinear_arith)
                requires
                    other.significand() >= 0x80_0000,
                    pb >= 1,
            ;
            if self.exp_field() == 0 {
                lemma2_to64();
                assert(self.significand() * pa < 0x80_0000) by (nonlinear_arith)
                    requires
                        self.significand() < 0x80_0000,
                        pa == 1,
                ;
            } else {
                if ea + 1 < eb {
                    lemma_pow2_strictly_increases(ea + 1, eb);
                }
                lemma_pow2_unfold(ea + 1);
                assert(self.significand() * pa < other.significand() * pb) by (nonlinear_arith)
                    requires
                        self.significand() < 0x100_0000,
                        other.significand() >= 0x80_0000,
                        pb >= 2 * pa,
                        pa > 0,
                ;
            }
        }
    }

    /// The absolute value of a single with its sign, counted in units of `2^-149`.
    pub open spec fn signed_scaled(self) -> int {
        if self.sign() {
            -self.scaled()
        } else {
            self.scaled()
        }
    }

    /// Finite singles are ordered as their values are.
    pub proof fn lemma_order_by_value(self, other: F32)
        requires
            self.finite(),
            other.finite(),
        ensures
            self.lt_spec(other) <==> self.signed_scaled() < other.signed_scaled(),
            self.le_spec(other) <==> self.signed_scaled() <= other.signed_scaled(),
    {
        lemma_pow2_pos((self.exponent() + 149) as nat);
        lemma_pow2_pos((other.exponent() + 149) as nat);
        let pa = pow2((self.exponent() + 149) as nat);
        let pb = pow2((other.exponent() + 149) as nat);
        assert(self.scaled() >= 0) by (nonlinear_arith)
            requires
                self.scaled() == self.significand() * pa,
                self.significand() >= 0,
                pa > 0,
        ;
        assert(other.scaled() >= 0) by (nonlinear_arith)
            requires
                other.scaled() == other.significand() * pb,
                other.significand() >= 0,
                pb > 0,
        ;
        lemma2_to64();
        assert((self.scaled() == 0) == (self.magnitude() == 0)) by (nonlinear_arith)
            requires
                self.scaled() == self.significand() * pa,
                (self.significand() == 0) == (self.magnitude() == 0),
                self.significand() >= 0,
                pa > 0,
        ;
        assert((other.scaled() == 0) == (other.magnitude() == 0)) by (nonlinear_arith)
            requires
                other.scaled() == other.significand() * pb,
                (other.significand() == 0) == (other.magnitude() == 0),
                other.significand() >= 0,
                pb > 0,
        ;
        if self.magnitude() < other.magnitude() {
            self.lemma_scaled_monotone(other);
        } else if other.magnitude() < self.magnitude() {
            other.lemma_scaled_monotone(self);
        }
    }

    /// There is at most one single that is a given fixed-point number.
    pub proof fn lemma_fixed_unique(self, other: F32, negative: bool, mag: int, frac_bits: nat)
        requires
            self.is_fixed(negative, mag, frac_bits),
            other.is_fixed(negative, mag, frac_bits),
        ensures
            self == other,
            self == Self::fixed(negative, mag, frac_bits),
    {
        let p = pow2(frac_bits);
        lemma_pow2_pos(frac_bits);
        assert(self.scaled() == other.scaled()) by (nonlinear_arith)
            requires
                self.scaled() * p == other.scaled() * p,
                p > 0,
        ;
        if self.magnitude() < other.magnitude() {
            self.lemma_scaled_monotone(other);
        } else if other.magnitude() < self.magnitude() {
            other.lemma_scaled_monotone(self);
        }
        assert(self.bits == other.bits);
        let c = Self::fixed(negative, mag, frac_bits);
        assert(c.is_fixed(negative, mag, frac_bits));
        let pc = pow2(frac_bits);
        assert(self.scaled() == c.scaled()) by (nonlinear_arith)
            requires
                self.scaled() * p == c.scaled() * p,
                p > 0,
        ;
        if self.magnitude() < c.magnitude() {
            self.lemma_scaled_monotone(c);
        } else if c.magnitude() < self.magnitude() {
            c.lemma_scaled_monotone(self);
        }
        assert(self.bits == c.bits);
    }

    /// The bits behind the sign of the single with the value `m * 2^(ef - 150)`,
    /// for a positive `m` below `2^24`: `m` is doubled, and `ef` lowered, until
    /// `m` has 24 bits.
    pub closed spec fn normal(m: int, ef: int) -> int
        decreases 0x100_0000 - m,
    {
        if 0 < m < 0x80_0000 {
            Self::normal(2 * m, ef - 1)
        } else {
            ef * 0x80_0000 + (m - 0x80_0000)
        }
    }

    /// The bits of the single that is a fixed-point number.
    pub closed spec fn fixed_bits(negative: bool, mag: int, frac_bits: nat) -> int {
        (if negative {
            0x8000_0000int
        } else {
            0int
        }) + (if mag == 0 {
            0int
        } else {
            Self::normal(mag, 150 - frac_bits)
        })
    }

    proof fn lemma_normal(negative: bool, mag: int, frac_bits: nat, m: int, ef: int, d: nat)
        requires
            0 < mag,
            0 < m < 0x100_0000,
            m == mag * pow2(d),
            ef + d == 150 - frac_bits,
            frac_bits <= 100,
        ensures
            0 < Self::normal(m, ef) < 0x7f80_0000,
            (F32 {
                bits: ((if negative {
                    0x8000_0000int
                } else {
                    0int
                }) + Self::normal(m, ef)) as u32,
            }).is_fixed(negative, mag, frac_bits),
        decreases 0x100_0000 - m,
    {
        lemma2_to64();
        if d >= 24 {
            if d > 24 {
                lemma_pow2_strictly_increases(24, d);
            }
            assert(mag * pow2(d) >= pow2(d)) by (nonlinear_arith)
                requires
                    mag >= 1,
            ;
        }
        assert(d <= 23);
        if m < 0x80_0000 {
            lemma_pow2_unfold(d + 1);
            assert(mag * (2 * pow2(d)) == 2 * (mag * pow2(d))) by (nonlinear_arith);
            Self::lemma_normal(negative, mag, frac_bits, 2 * m, ef - 1, d + 1);
        } else {
            let top = if negative {
                0x8000_0000int
            } else {
                0int
            };
            let r = F32 { bits: (top + ef * 0x80_0000 + (m - 0x80_0000)) as u32 };
            assert(r.magnitude() == ef * 0x80_0000 + (m - 0x80_0000));
            assert(r.exp_field() == ef);
            assert(r.frac_field() == m - 0x80_0000);
            assert(r.significand() == m);
            assert(r.exponent() + 149 == ef - 1);
            let a = pow2(d);
            let b = pow2((ef - 1) as nat);
            let c = pow2(frac_bits);
            lemma_pow2_adds(d, (ef - 1) as nat);
            lemma_pow2_adds(d + (ef - 1) as nat, frac_bits);
            assert(a * b * c == pow2(149));
            assert((mag * a) * b * c == mag * (a * b * c)) by (nonlinear_arith);
        }
    }

    /// Every fixed-point number with fewer than 24 bits is a single.
    pub proof fn lemma_fixed_exists(negative: bool, mag: int, frac_bits: nat)
        requires
            0 <= mag < 0x100_0000,
            frac_bits <= 100,
        ensures
            Self::fixed(negative, mag, frac_bits).is_fixed(negative, mag, frac_bits),
            Self::fixed(negative, mag, frac_bits).bits == Self::fixed_bits(
                negative,
                mag,
                frac_bits,
            ),
    {
        let r = F32 { bits: Self::fixed_bits(negative, mag, frac_bits) as u32 };
        if mag == 0 {
            lemma2_to64();
            assert(r.scaled() == 0) by (nonlinear_arith)
                requires
                    r.scaled() == 0 * pow2(0),
            ;
            assert(r.scaled() * pow2(frac_bits) == mag * pow2(149)) by (nonlinear_arith)
                requires
                    r.scaled() == 0,
                    mag == 0,
            ;
        } else {
            lemma2_to64();
            assert(mag * pow2(0) == mag) by (nonlinear_arith)
                requires
                    pow2(0) == 1,
            ;
            Self::lemma_normal(negative, mag, frac_bits, mag, 150 - frac_bits, 0);
        }
        r.lemma_fixed_unique(r, negative, mag, frac_bits);
    }

    /// The single of the value `mag / 2^frac_bits`, negated where `negative`.
    fn from_fixed(negative: bool, mag: u32, frac_bits: u32) -> (r: Self)
        requires
            mag < 0x100_0000,
            frac_bits <= 100,
        ensures
            r.is_fixed(negative, mag as int, frac_bits as nat),
            r == Self::fixed(negative, mag as int, frac_bits as nat),
    {
        let top: u32 = if negative {
            0x8000_0000
        } else {
            0
        };
        proof {
            Self::lemma_fixed_exists(negative, mag as int, frac_bits as nat);
        }
        if mag == 0 {
            return F32 { bits: top };
        }
        let mut m: u32 = mag;
        let mut ef: u32 = 150 - frac_bits;
        let ghost d: nat = 0;
        proof {
            lemma2_to64();
        }
        while m < 0x80_0000
            invariant
                0 < m < 0x100_0000,
                frac_bits <= 100,
                pow2(d) <= m,
                d <= 23,
                ef + d == 150 - frac_bits,
                Self::normal(m as int, ef as int) == Self::normal(mag as int, 150 - frac_bits),
            decreases 0x100_0000 - m,
        {
            proof {
                lemma_pow2_unfold(d + 1);
                lemma2_to64();
                if d + 1 >= 24 {
                    if d + 1 > 24 {
                        lemma_pow2_strictly_increases(24, d + 1);
                    }
                }
            }
            m = m * 2;
            ef = ef - 1;
            proof {
                d = d + 1;
            }
        }
        F32 { bits: top + ef * 0x80_0000 + (m - 0x80_0000) }
    }

    /// The single of the value `q / 4`.
    pub open spec fn fpe2_single(q: u16) -> F32 {
        Self::fixed(false, q as int, 2)
    }

    /// The single of the value `q / 256`.
    pub open spec fn sp78_single(q: i16) -> F32 {
        Self::fixed(q < 0, if q < 0 { -(q as int) } else { q as int }, 8)
    }

    /// The single of the value `q / 4`.
    pub fn from_fpe2(q: u16) -> (r: Self)
        ensures
            r == Self::fpe2_single(q),
            r.is_fixed(false, q as int, 2),
    {
        Self::from_fixed(false, q as u32, 2)
    }

    /// The single of the value `q / 256`.
    pub fn from_sp78(q: i16) -> (r: Self)
        ensures
            r == Self::sp78_single(q),
            r.is_fixed(q < 0, if q < 0 { -(q as int) } else { q as int }, 8),
    {
        if q < 0 {
            Self::from_fixed(true, (-(q as i32)) as u32, 8)
        } else {
            Self::from_fixed(false, q as u32, 8)
        }
    }

    /// The absolute value of a finite single times `2^k`, rounded down to an
    /// integer and cut at `cap`.
    fn floor_capped(self, k: u32, cap: u32) -> (r: u32)
        requires
            self.finite(),
            k <= 16,
            cap < 0x80_0000,
        ensures
            r == (if self.floor_mul_pow2(k as nat) < cap {
                self.floor_mul_pow2(k as nat)
            } else {
                cap as int
            }),
    {
        let mag: u32 = self.bits % 0x8000_0000;
        let ef: u32 = mag / 0x80_0000;
        let frac: u32 = mag % 0x80_0000;
        let sig: u32 = if ef == 0 {
            frac
        } else {
            0x80_0000 + frac
        };
        // The absolute value is sig * 2^(up - 149).
        let up: u32 = if ef == 0 {
            k
        } else {
            ef - 1 + k
        };
        proof {
            lemma2_to64();
            assert(sig == self.significand());
            assert(up == self.exponent() + 149 + k);
            lemma_pow2_adds((self.exponent() + 149) as nat, k as nat);
            assert(self.scaled() * pow2(k as nat) == sig * pow2(up as nat)) by (nonlinear_arith)
                requires
                    self.scaled() == sig * pow2((self.exponent() + 149) as nat),
                    pow2(up as nat) == pow2((self.exponent() + 149) as nat) * pow2(k as nat),
            ;
        }
        if up >= 149 {
            proof {
                let hi = pow2((up - 149) as nat);
                lemma_pow2_adds((up - 149) as nat, 149);
                lemma_pow2_pos((up - 149) as nat);
                lemma_pow2_pos(149);
                assert(sig * pow2(up as nat) == (sig * hi) * pow2(149)) by (nonlinear_arith)
                    requires
                        pow2(up as nat) == hi * pow2(149),
                ;
                assert(sig * hi >= sig) by (nonlinear_arith)
                    requires
                        hi >= 1,
                        sig >= 0,
                ;
                lemma_div_by_multiple(sig * hi, pow2(149) as int);
            }
            cap
        } else {
            let shift: u32 = 149 - up;
            proof {
                let lo = pow2(up as nat);
                let cut = pow2(shift as nat);
                lemma_pow2_adds(up as nat, shift as nat);
                lemma_pow2_pos(up as nat);
                lemma_pow2_pos(shift as nat);
                lemma_div_multiples_vanish_quotient(lo as int, sig as int, cut as int);
                assert(sig * lo == lo * sig) by (nonlinear_arith);
                assert(self.floor_mul_pow2(k as nat) == sig as int / cut as int);
            }
            if shift >= 24 {
                proof {
                    if shift > 24 {
                        lemma_pow2_strictly_increases(24, shift as nat);
                    }
                    lemma_basic_div(sig as int, pow2(shift as nat) as int);
                }
                0
            } else {
                proof {
                    lemma_u32_shr_is_div(sig, shift);
                }
                let q: u32 = sig >> shift;
                if q < cap {
                    q
                } else {
                    cap
                }
            }
        }
    }

    /// The number of quarters in the value, rounded down: what the single comes
    /// to in the unsigned fixed-point format with two fractional bits. A NaN and
    /// what lies below zero count as 0, what lies above the format as 65535.
    pub open spec fn fpe2_of(self) -> int {
        if self.nan() || self.sign() {
            0
        } else if self.infinite() || self.floor_mul_pow2(2) >= 65535 {
            65535
        } else {
            self.floor_mul_pow2(2)
        }
    }

    /// The absolute value of what the single comes to in the signed fixed-point
    /// format with eight fractional bits, before it is cut to the format: the
    /// number of 256ths in the absolute value, rounded to the nearest, a half
    /// away from zero, and at most 65536.
    pub open spec fn sp78_magnitude(self) -> int {
        if self.infinite() || self.floor_mul_pow2(9) >= 0x2_0000 {
            65536
        } else {
            (self.floor_mul_pow2(9) + 1) / 2
        }
    }

    /// The number of 256ths in the value, rounded to the nearest: what the single
    /// comes to in the signed fixed-point format with eight fractional bits. A
    /// NaN counts as 0, what lies outside the format as its nearest end.
    pub open spec fn sp78_of(self) -> int {
        if self.nan() {
            0
        } else if self.sign() {
            if self.sp78_magnitude() >= 32768 {
                -32768
            } else {
                -self.sp78_magnitude()
            }
        } else {
            if self.sp78_magnitude() >= 32767 {
                32767
            } else {
                self.sp78_magnitude()
            }
        }
    }

    /// What the single comes to in the unsigned fixed-point format with two
    /// fractional bits.
    pub fn to_fpe2(self) -> (r: u16)
        ensures
            r == self.fpe2_of(),
    {
        let mag: u32 = self.bits % 0x8000_0000;
        if mag > 0x7f80_0000 || self.bits >= 0x8000_0000 {
            0
        } else if mag == 0x7f80_0000 {
            65535
        } else {
            self.floor_capped(2, 65535) as u16
        }
    }

    /// What the single comes to in the signed fixed-point format with eight
    /// fractional bits.
    pub fn to_sp78(self) -> (r: i16)
        ensures
            r == self.sp78_of(),
    {
        let mag: u32 = self.bits % 0x8000_0000;
        if mag > 0x7f80_0000 {
            return 0;
        }
        let m: u32 = if mag == 0x7f80_0000 {
            65536
        } else {
            (self.floor_capped(9, 0x2_0000) + 1) / 2
        };
        if self.bits >= 0x8000_0000 {
            if m >= 32768 {
                -32768
            } else {
                -(m as i32) as i16
            }
        } else {
            if m >= 32767 {
                32767
            } else {
                m as i16
            }
        }
    }

    /// The fixed-point forms of a single lie within their formats.
    pub proof fn lemma_fixed_point_ranges(self)
        ensures
            0 <= self.fpe2_of() <= u16::MAX,
            i16::MIN <= self.sp78_of() <= i16::MAX,
    {
        lemma_pow2_pos((self.exponent() + 149) as nat);
        lemma_pow2_pos(2);
        lemma_pow2_pos(9);
        lemma_pow2_pos(149);
        let p = pow2((self.exponent() + 149) as nat);
        assert(self.scaled() >= 0) by (nonlinear_arith)
            requires
                self.scaled() == self.significand() * p,
                self.significand() >= 0,
                p > 0,
        ;
        assert(self.scaled() * pow2(2) >= 0) by (nonlinear_arith)
            requires
                self.scaled() >= 0,
                pow2(2) > 0,
        ;
        assert(self.scaled() * pow2(9) >= 0) by (nonlinear_arith)
            requires
                self.scaled() >= 0,
                pow2(9) > 0,
        ;
        vstd::arithmetic::div_mod::lemma_div_pos_is_pos(self.scaled() * pow2(2), pow2(149) as int);
        vstd::arithmetic::div_mod::lemma_div_pos_is_pos(self.scaled() * pow2(9), pow2(149) as int);
    }

    /// The single of `q` quarters comes to `q` again in the unsigned fixed-point
    /// format: what was read from the wire is written back unchanged.
    pub proof fn lemma_fpe2_exact(q: u16)
        ensures
            Self::fpe2_single(q).fpe2_of() == q,
    {
        Self::lemma_fixed_exists(false, q as int, 2);
        let f = Self::fpe2_single(q);
        lemma2_to64();
        lemma_pow2_pos(149);
        assert(f.scaled() * pow2(2) == q * pow2(149));
        lemma_div_by_multiple(q as int, pow2(149) as int);
        assert(f.floor_mul_pow2(2) == q);
    }

    /// The single of `q` 256ths comes to `q` again in the signed fixed-point
    /// format: what was read from the wire is written back unchanged.
    pub proof fn lemma_sp78_exact(q: i16)
        ensures
            Self::sp78_single(q).sp78_of() == q,
    {
        let mag: int = if q < 0 {
            -(q as int)
        } else {
            q as int
        };
        Self::lemma_fixed_exists(q < 0, mag, 8);
        let f = Self::sp78_single(q);
        lemma2_to64();
        lemma_pow2_pos(149);
        assert(f.scaled() * pow2(9) == (2 * mag) * pow2(149)) by (nonlinear_arith)
            requires
                f.scaled() * pow2(8) == mag * pow2(149),
                pow2(9) == 2 * pow2(8),
        ;
        lemma_div_by_multiple(2 * mag, pow2(149) as int);
        assert(f.floor_mul_pow2(9) == 2 * mag);
    }

    /// The unsigned fixed-point form of a single is its value in quarters,
    /// rounded down: as long as the format is not exceeded, the form is at most
    /// the value, and the value is less than the form and one.
    pub proof fn lemma_fpe2_floor(self)
        requires
            self.finite(),
            !self.sign(),
            self.floor_mul_pow2(2) < 65535,
        ensures
            self.fpe2_of() * pow2(149) <= self.scaled() * 4 < (self.fpe2_of() + 1) * pow2(149),
    {
        lemma2_to64();
        lemma_pow2_pos(149);
        let x = self.scaled() * pow2(2);
        let d = pow2(149) as int;
        vstd::arithmetic::div_mod::lemma_fundamental_div_mod(x, d);
        vstd::arithmetic::div_mod::lemma_mod_bound(x, d);
        assert(d * (x / d) == (x / d) * d) by (nonlinear_arith);
        assert((self.fpe2_of() + 1) * d == self.fpe2_of() * d + d) by (nonlinear_arith);
    }

    /// The signed fixed-point form of a single is its value in 256ths, rounded to
    /// the nearest: as long as the format is not exceeded, twice the distance
    /// between the form and the value is at most one.
    pub proof fn lemma_sp78_nearest(self)
        requires
            self.finite(),
            self.sp78_magnitude() < 32767,
        ensures
            (2 * self.sp78_magnitude() - 1) * pow2(149) <= self.scaled() * 512 < (2
                * self.sp78_magnitude() + 1) * pow2(149),
            self.sp78_of() == (if self.sign() {
                -self.sp78_magnitude()
            } else {
                self.sp78_magnitude()
            }),
    {
        lemma2_to64();
        lemma_pow2_pos(149);
        let x = self.scaled() * pow2(9);
        let d = pow2(149) as int;
        let t = x / d;
        let m = self.sp78_magnitude();
        vstd::arithmetic::div_mod::lemma_fundamental_div_mod(x, d);
        vstd::arithmetic::div_mod::lemma_mod_bound(x, d);
        assert(d * t == t * d) by (nonlinear_arith);
        assert(m == (t + 1) / 2);
        assert(2 * m - 1 <= t <= 2 * m);
        assert((2 * m - 1) * d <= t * d) by (nonlinear_arith)
            requires
                2 * m - 1 <= t,
                d > 0,
        ;
        assert(t * d + d <= (2 * m + 1) * d) by (nonlinear_arith)
            requires
                t <= 2 * m,
                d > 0,
        ;
    }
}

} // verus!
