//! Arithmetic on singles as IEEE-754 defines it: the exact result, rounded to the
//! nearest single, a tie to the one whose last bit is zero.

use vstd::prelude::*;
use vstd::arithmetic::power2::{
    lemma2_to64,
    lemma_pow2_adds,
    lemma_pow2_pos,
    lemma_pow2_strictly_increases,
    lemma_pow2_unfold,
    pow2,
};
use crate::float::F32;

verus! {

/// The single with the next greater bits: the next one away from zero.
pub open spec fn above(f: F32) -> F32 {
    F32 { bits: (f.bits + 1) as u32 }
}

/// The single with the next smaller bits: the next one towards zero.
pub open spec fn below(f: F32) -> F32 {
    F32 { bits: (f.bits - 1) as u32 }
}

/// Whether `r` is the value `num / den`, counted in units of `2^-149` and taken
/// with the given sign, rounded to the nearest single: the value lies between
/// the midpoints to the singles next to `r`, and where it lies on a midpoint,
/// the last bit of `r` is zero. An infinity stands for two to the power of 128.
pub open spec fn rounds_to(r: F32, negative: bool, num: int, den: int) -> bool {
    &&& r.sign() == negative
    &&& !r.nan()
    &&& r.magnitude() > 0 ==> {
        &&& (below(r).scaled() + r.scaled()) * den <= 2 * num
        &&& (below(r).scaled() + r.scaled()) * den == 2 * num ==> r.bits % 2 == 0
    }
    &&& !r.infinite() ==> {
        &&& 2 * num <= (r.scaled() + above(r).scaled()) * den
        &&& 2 * num == (r.scaled() + above(r).scaled()) * den ==> r.bits % 2 == 0
    }
}

/// The absolute value of a single that is not a NaN is zero exactly when its bits
/// behind the sign are, and is never below zero.
pub proof fn lemma_scaled_sign(f: F32)
    requires
        !f.nan(),
    ensures
        f.scaled() >= 0,
        f.scaled() == 0 <==> f.magnitude() == 0,
{
    let p = pow2((f.exponent() + 149) as nat);
    lemma_pow2_pos((f.exponent() + 149) as nat);
    assert(f.scaled() >= 0 && (f.scaled() == 0 <==> f.significand() == 0)) by (nonlinear_arith)
        requires
            f.scaled() == f.significand() * p,
            f.significand() >= 0,
            p > 0,
    ;
}

/// At most one single is a value rounded to the nearest single.
pub proof fn lemma_rounds_to_one(r1: F32, r2: F32, negative: bool, num: int, den: int)
    requires
        0 < den,
        rounds_to(r1, negative, num, den),
        rounds_to(r2, negative, num, den),
    ensures
        r1 == r2,
{
    lemma_not_further_out(r1, r2, num, den);
    lemma_not_further_out(r2, r1, num, den);
}

/// A value cannot be rounded both to a single and to one further out.
proof fn lemma_not_further_out(r1: F32, r2: F32, num: int, den: int)
    requires
        0 < den,
        r1.sign() == r2.sign(),
        rounds_to(r1, r1.sign(), num, den),
        rounds_to(r2, r2.sign(), num, den),
    ensures
        r2.magnitude() <= r1.magnitude(),
{
    if r1.magnitude() < r2.magnitude() {
        assert(!r1.infinite());
        assert(r2.magnitude() > 0);
        let up = (r1.scaled() + above(r1).scaled()) * den;
        let down = (below(r2).scaled() + r2.scaled()) * den;
        assert(2 * num <= up);
        assert(down <= 2 * num);
        lemma_neighbours_tie(r1, r2, num, den);
        assert(r1.bits % 2 == 0);
        assert(r2.bits % 2 == 0);
        assert(r2.bits == r1.bits + 1) by {
            assert(r1.bits == r1.magnitude() + if r1.sign() {
                0x8000_0000int
            } else {
                0int
            });
            assert(r2.bits == r2.magnitude() + if r2.sign() {
                0x8000_0000int
            } else {
                0int
            });
        }
    }
}

/// Where a value is rounded both to a single and to one further out, the two are
/// neighbours and the value lies in their middle.
proof fn lemma_neighbours_tie(r1: F32, r2: F32, num: int, den: int)
    requires
        0 < den,
        !r1.nan(),
        !r2.nan(),
        r1.magnitude() < r2.magnitude(),
        2 * num <= (r1.scaled() + above(r1).scaled()) * den,
        (below(r2).scaled() + r2.scaled()) * den <= 2 * num,
    ensures
        r2.magnitude() == r1.magnitude() + 1,
        2 * num == (r1.scaled() + above(r1).scaled()) * den,
        (below(r2).scaled() + r2.scaled()) * den == 2 * num,
{
    let hi = above(r1);
    let lo = below(r2);
    assert(hi.magnitude() == r1.magnitude() + 1);
    assert(lo.magnitude() == r2.magnitude() - 1);
    if r1.magnitude() < lo.magnitude() {
        r1.lemma_scaled_monotone(lo);
    }
    if hi.magnitude() < r2.magnitude() {
        hi.lemma_scaled_monotone(r2);
    }
    r1.lemma_scaled_monotone(hi);
    let m1 = r1.scaled();
    let m2 = r2.scaled();
    let h = hi.scaled();
    let l = lo.scaled();
    assert(m1 <= l && h <= m2 && m1 < h);
    assert((m1 + h) * den <= (l + m2) * den) by (nonlinear_arith)
        requires
            m1 <= l,
            h <= m2,
            den > 0,
    ;
    // The two midpoints enclose the value in the wrong order, so they are one.
    assert((m1 + h) * den == (l + m2) * den);
    assert(m1 + h == l + m2) by (nonlinear_arith)
        requires
            (m1 + h) * den == (l + m2) * den,
            den > 0,
    ;
    assert(m1 == l && h == m2);
}

/// The next single away from zero lies one unit of the last place further out.
pub proof fn lemma_above(f: F32)
    requires
        f.finite(),
    ensures
        above(f).sign() == f.sign(),
        above(f).magnitude() == f.magnitude() + 1,
        above(f).scaled() == f.scaled() + pow2((f.exponent() + 149) as nat),
{
    let p = (f.exponent() + 149) as nat;
    let g = above(f);
    lemma2_to64();
    assert(g.magnitude() == f.magnitude() + 1);
    if f.frac_field() < 0x7f_ffff {
        assert(g.exp_field() == f.exp_field());
        assert(g.frac_field() == f.frac_field() + 1);
        assert((f.significand() + 1) * pow2(p) == f.significand() * pow2(p) + pow2(p))
            by (nonlinear_arith);
    } else {
        assert(g.exp_field() == f.exp_field() + 1);
        assert(g.frac_field() == 0);
        if f.exp_field() == 0 {
            assert(p == 0);
            assert(g.exponent() == -149);
            assert(0x80_0000 * pow2(0) == 0x7f_ffff * pow2(0) + pow2(0)) by (nonlinear_arith);
        } else {
            lemma_pow2_unfold(p + 1);
            assert(0x80_0000 * (2 * pow2(p)) == 0xff_ffff * pow2(p) + pow2(p))
                by (nonlinear_arith);
        }
    }
}

/// The bits behind the sign of the single `q * 2^e`, for `q` below `2^24`: with
/// `e` at -149 where `q` is below `2^23`.
spec fn packed(q: int, e: int) -> int {
    (e + 149) * 0x80_0000 + q
}

/// The bits of `packed` stand for that value.
proof fn lemma_packed(negative: bool, q: int, e: int)
    requires
        0 <= q < 0x100_0000,
        -149 <= e <= 104,
        q < 0x80_0000 ==> e == -149,
    ensures
        0 <= packed(q, e) < 0x7f80_0000,
        ({
            let f = F32 {
                bits: ((if negative {
                    0x8000_0000int
                } else {
                    0int
                }) + packed(q, e)) as u32,
            };
            &&& f.sign() == negative
            &&& f.magnitude() == packed(q, e)
            &&& f.scaled() == q * pow2((e + 149) as nat)
            &&& f.exponent() == e
        }),
{
    let f = F32 {
        bits: ((if negative {
            0x8000_0000int
        } else {
            0int
        }) + packed(q, e)) as u32,
    };
    assert(f.magnitude() == packed(q, e));
    if q < 0x80_0000 {
        assert(f.exp_field() == 0);
        assert(f.frac_field() == q);
    } else {
        assert(f.exp_field() == e + 150);
        assert(f.frac_field() == q - 0x80_0000);
    }
}

/// Whether the value `num / den`, counted in units of `2^-149`, lies from
/// `(2q + g) * 2^(e - 1)` up to the next such number, and is that number exactly
/// when `st` is false: `q` is the value in units of `2^e` rounded down, `g` its
/// next bit, and `st` says whether anything follows.
spec fn brackets(q: int, g: bool, st: bool, e: int, num: int, den: int) -> bool {
    let t = 2 * q + if g {
        1int
    } else {
        0int
    };
    if e + 149 >= 0 {
        let a = pow2((e + 149) as nat) * den;
        &&& t * a <= 2 * num < (t + 1) * a
        &&& st <==> t * a != 2 * num
    } else {
        let y = 2 * num * pow2((-(e + 149)) as nat);
        &&& t * den <= y < (t + 1) * den
        &&& st <==> t * den != y
    }
}

proof fn lemma_brackets_halve(q: int, g: bool, st: bool, e: int, num: int, den: int)
    requires
        0 <= q,
        0 < den,
        0 <= num,
        brackets(q, g, st, e, num, den),
    ensures
        brackets(q / 2, q % 2 == 1, st || g, e + 1, num, den),
{
    let t = 2 * q + if g {
        1int
    } else {
        0int
    };
    let t2 = 2 * (q / 2) + if q % 2 == 1 {
        1int
    } else {
        0int
    };
    assert(t2 == q);
    if e + 149 >= 0 {
        let a = pow2((e + 149) as nat) * den;
        let a2 = pow2((e + 150) as nat) * den;
        lemma_pow2_unfold((e + 150) as nat);
        assert(a2 == 2 * a) by (nonlinear_arith)
            requires
                a == pow2((e + 149) as nat) * den,
                a2 == pow2((e + 150) as nat) * den,
                pow2((e + 150) as nat) == 2 * pow2((e + 149) as nat),
        ;
        assert(q * a2 == (2 * q) * a) by (nonlinear_arith)
            requires
                a2 == 2 * a,
        ;
        assert((q + 1) * a2 == (2 * q + 2) * a) by (nonlinear_arith)
            requires
                a2 == 2 * a,
        ;
        assert((2 * q) * a <= t * a && (t + 1) * a <= (2 * q + 2) * a && (g ==> (2 * q) * a < t
            * a || a == 0)) by (nonlinear_arith)
            requires
                2 * q <= t <= 2 * q + 1,
                g ==> t == 2 * q + 1,
                a >= 0,
        ;
        lemma_pow2_pos((e + 149) as nat);
        assert(a > 0) by (nonlinear_arith)
            requires
                a == pow2((e + 149) as nat) * den,
                pow2((e + 149) as nat) > 0,
                den > 0,
        ;
    } else if e + 150 < 0 {
        let y = 2 * num * pow2((-(e + 149)) as nat);
        let y2 = 2 * num * pow2((-(e + 150)) as nat);
        lemma_pow2_unfold((-(e + 149)) as nat);
        assert(y == 2 * y2) by (nonlinear_arith)
            requires
                y == 2 * num * pow2((-(e + 149)) as nat),
                y2 == 2 * num * pow2((-(e + 150)) as nat),
                pow2((-(e + 149)) as nat) == 2 * pow2((-(e + 150)) as nat),
        ;
        assert((2 * q) * den <= t * den && (t + 1) * den <= (2 * q + 2) * den && (g ==> (2 * q)
            * den < t * den)) by (nonlinear_arith)
            requires
                2 * q <= t <= 2 * q + 1,
                g ==> t == 2 * q + 1,
                den > 0,
        ;
        assert((2 * q) * den == 2 * (q * den) && (2 * q + 2) * den == 2 * ((q + 1) * den))
            by (nonlinear_arith);
    } else {
        let y = 2 * num * pow2(1);
        lemma2_to64();
        assert(y == 4 * num) by (nonlinear_arith)
            requires
                y == 2 * num * pow2(1),
                pow2(1) == 2,
        ;
        assert(pow2(0) * den == den) by (nonlinear_arith)
            requires
                pow2(0) == 1,
        ;
        assert((2 * q) * den <= t * den && (t + 1) * den <= (2 * q + 2) * den && (g ==> (2 * q)
            * den < t * den)) by (nonlinear_arith)
            requires
                2 * q <= t <= 2 * q + 1,
                g ==> t == 2 * q + 1,
                den > 0,
        ;
        assert((2 * q) * den == 2 * (q * den) && (2 * q + 2) * den == 2 * ((q + 1) * den))
            by (nonlinear_arith);
    }
}

proof fn lemma_brackets_double(q: int, e: int, num: int, den: int)
    requires
        0 <= q,
        0 < den,
        0 <= num,
        e > -149,
        brackets(q, false, false, e, num, den),
    ensures
        brackets(2 * q, false, false, e - 1, num, den),
{
    let a = pow2((e + 149) as nat) * den;
    let a2 = pow2((e + 148) as nat) * den;
    lemma_pow2_unfold((e + 149) as nat);
    assert(a == 2 * a2) by (nonlinear_arith)
        requires
            a == pow2((e + 149) as nat) * den,
            a2 == pow2((e + 148) as nat) * den,
            pow2((e + 149) as nat) == 2 * pow2((e + 148) as nat),
    ;
    assert((2 * (2 * q)) * a2 == (2 * q) * a) by (nonlinear_arith)
        requires
            a == 2 * a2,
    ;
    lemma_pow2_pos((e + 148) as nat);
    assert(a2 > 0) by (nonlinear_arith)
        requires
            a2 == pow2((e + 148) as nat) * den,
            pow2((e + 148) as nat) > 0,
            den > 0,
    ;
    assert((2 * (2 * q) + 1) * a2 == (2 * (2 * q)) * a2 + a2) by (nonlinear_arith);
}

/// The bit that the sign takes in the bits of a single.
spec fn sign_bit(negative: bool) -> int {
    if negative {
        0x8000_0000
    } else {
        0
    }
}

/// Whether a value of which `q` is the integer part, `g` the next bit and `st`
/// the rest is rounded up: where it lies above the middle, or on the middle with
/// `q` odd.
spec fn rounds_up(q: int, g: bool, st: bool) -> bool {
    g && (st || q % 2 == 1)
}

proof fn lemma_round_finish(negative: bool, q: int, g: bool, st: bool, e: int, num: int, den: int)
    requires
        0 <= q < 0x100_0000,
        -149 <= e <= 104,
        q < 0x80_0000 ==> e == -149,
        0 < den,
        0 <= num,
        brackets(q, g, st, e, num, den),
    ensures
        ({
            let mag = packed(q, e) + if rounds_up(q, g, st) {
                1int
            } else {
                0int
            };
            &&& 0 <= mag <= 0x7f80_0000
            &&& rounds_to(F32 { bits: (sign_bit(negative) + mag) as u32 }, negative, num, den)
        }),
{
    let up = rounds_up(q, g, st);
    let f0 = F32 { bits: (sign_bit(negative) + packed(q, e)) as u32 };
    lemma_packed(negative, q, e);
    lemma_above(f0);
    let unit = pow2((e + 149) as nat);
    lemma_pow2_pos((e + 149) as nat);
    let a = unit * den;
    let t = 2 * q + if g {
        1int
    } else {
        0int
    };
    let m0 = f0.scaled();
    assert(m0 * den == q * a) by (nonlinear_arith)
        requires
            m0 == q * unit,
            a == unit * den,
    ;
    assert((m0 + (m0 + unit)) * den == (2 * q + 1) * a) by (nonlinear_arith)
        requires
            m0 == q * unit,
            a == unit * den,
    ;
    assert(a > 0) by (nonlinear_arith)
        requires
            a == unit * den,
            unit > 0,
            den > 0,
    ;
    if !up {
        let r = f0;
        if r.magnitude() > 0 {
            let lo = below(r);
            assert(lo.magnitude() == r.magnitude() - 1);
            lo.lemma_scaled_monotone(r);
            assert((lo.scaled() + m0) * den < (2 * q) * a) by (nonlinear_arith)
                requires
                    lo.scaled() < m0,
                    m0 * den == q * a,
                    den > 0,
            ;
            assert((2 * q) * a <= t * a) by (nonlinear_arith)
                requires
                    2 * q <= t,
                    a > 0,
            ;
        }
        assert((t + 1) * a <= (2 * q + 1) * a || g) by (nonlinear_arith)
            requires
                !g ==> t == 2 * q,
        ;
    } else {
        let r = above(f0);
        assert(r.bits == sign_bit(negative) + packed(q, e) + 1);
        assert(below(r) == f0);
        assert(t == 2 * q + 1);
        if !r.infinite() {
            lemma_above(r);
            lemma_pow2_pos((r.exponent() + 149) as nat);
            let hi = above(r).scaled();
            assert((t + 1) * a < (r.scaled() + hi) * den) by (nonlinear_arith)
                requires
                    t == 2 * q + 1,
                    r.scaled() == m0 + unit,
                    m0 * den == q * a,
                    a == unit * den,
                    hi > r.scaled(),
                    den > 0,
            ;
        }
    }
}

proof fn lemma_round_overflow(negative: bool, q: int, g: bool, st: bool, e: int, num: int, den: int)
    requires
        0x80_0000 <= q,
        104 < e,
        0 < den,
        0 <= num,
        brackets(q, g, st, e, num, den),
    ensures
        rounds_to(F32 { bits: (sign_bit(negative) + 0x7f80_0000) as u32 }, negative, num, den),
{
    let r = F32 { bits: (sign_bit(negative) + 0x7f80_0000) as u32 };
    let lo = below(r);
    assert(lo.magnitude() == 0x7f7f_ffff);
    assert(r.magnitude() == 0x7f80_0000);
    assert(r.exp_field() == 255 && r.frac_field() == 0);
    assert(lo.exp_field() == 254 && lo.frac_field() == 0x7f_ffff);
    let top = pow2(254);
    let unit = pow2((e + 149) as nat);
    lemma_pow2_unfold(254);
    lemma_pow2_pos(253);
    if e + 149 > 254 {
        lemma_pow2_strictly_increases(254, (e + 149) as nat);
    }
    let a = unit * den;
    let t = 2 * q + if g {
        1int
    } else {
        0int
    };
    assert((lo.scaled() + r.scaled()) * den < 2 * num) by (nonlinear_arith)
        requires
            lo.scaled() == 0xff_ffff * pow2(253),
            r.scaled() == 0x80_0000 * top,
            top == 2 * pow2(253),
            pow2(253) > 0,
            unit >= top,
            t >= 2 * q,
            q >= 0x80_0000,
            t * (unit * den) <= 2 * num,
            den > 0,
    ;
}

/// Rounds the value that `n`, `half`, `sticky` and `e` stand for to the nearest
/// single: the value is `n * 2^e`, and half of `2^e` more where `half` is set,
/// and something less than half of `2^e` more where `sticky` is set.
fn round(
    negative: bool,
    n: u128,
    half: bool,
    sticky: bool,
    e: i32,
    Ghost(num): Ghost<int>,
    Ghost(den): Ghost<int>,
) -> (r: F32)
    requires
        n < 0x4000_0000_0000_0000_0000_0000_0000_0000,
        -2000 <= e <= 2000,
        0 < den,
        0 <= num,
        brackets(n as int, half, sticky, e as int, num, den),
        half || sticky ==> n >= 0x100_0000,
    ensures
        rounds_to(r, negative, num, den),
{
    let top: u32 = if negative {
        0x8000_0000
    } else {
        0
    };
    let mut q: u128 = n;
    let mut exp: i32 = e;
    let mut g: bool = half;
    let mut st: bool = sticky;
    proof {
        lemma2_to64();
        vstd::arithmetic::power2::lemma2_to64_rest();
        lemma_pow2_adds(64, 62);
        assert(pow2(126) == 0x4000_0000_0000_0000_0000_0000_0000_0000) by (nonlinear_arith)
            requires
                pow2(126) == pow2(64) * pow2(62),
                pow2(64) == 0x1_0000_0000_0000_0000,
                pow2(62) == 0x4000_0000_0000_0000,
        ;
    }
    while q >= 0x100_0000 || exp < -149
        invariant
            -2000 <= e <= 2000,
            e <= exp,
            exp <= e + 126 || exp <= -149,
            exp - e <= 126 ==> q < pow2((126 - (exp - e)) as nat),
            exp - e > 126 ==> q == 0,
            0 < den,
            0 <= num,
            brackets(q as int, g, st, exp as int, num, den),
            (g || st) ==> q >= 0x80_0000 || exp <= -149,
        decreases q + (if exp < -149 { -149 - exp } else { 0 }),
    {
        proof {
            lemma_brackets_halve(q as int, g, st, exp as int, num, den);
            lemma2_to64();
            if exp - e < 126 {
                lemma_pow2_unfold((126 - (exp - e)) as nat);
            }
        }
        st = st || g;
        g = q % 2 == 1;
        q = q / 2;
        exp = exp + 1;
    }
    while 0 < q && q < 0x80_0000 && exp > -149
        invariant
            q < 0x100_0000,
            -149 <= exp <= 2200,
            0 < den,
            0 <= num,
            brackets(q as int, g, st, exp as int, num, den),
            (g || st) ==> q >= 0x80_0000 || exp <= -149,
        decreases exp + 149,
    {
        proof {
            lemma_brackets_double(q as int, exp as int, num, den);
        }
        q = q * 2;
        exp = exp - 1;
    }
    if q == 0 && exp > -149 {
        proof {
            lemma_pow2_pos((exp + 149) as nat);
            let a = pow2((exp + 149) as nat) * den;
            assert(0 * a == 0 && 1 * a == a) by (nonlinear_arith);
            assert(2 * num == 0);
            lemma2_to64();
            assert(brackets(0, false, false, -149, num, den)) by {
                assert(0 * (pow2(0) * den) == 0) by (nonlinear_arith);
                assert(1 * (pow2(0) * den) > 0) by (nonlinear_arith)
                    requires
                        pow2(0) == 1,
                        den > 0,
                ;
            }
            lemma_round_finish(negative, 0, false, false, -149, num, den);
        }
        return F32 { bits: top };
    }
    if exp > 104 {
        proof {
            lemma_round_overflow(negative, q as int, g, st, exp as int, num, den);
        }
        return F32 { bits: top + 0x7f80_0000 };
    }
    proof {
        lemma_round_finish(negative, q as int, g, st, exp as int, num, den);
    }
    let up: u32 = if g && (st || q % 2 == 1) {
        1
    } else {
        0
    };
    F32 { bits: top + ((exp + 149) as u32) * 0x80_0000 + q as u32 + up }
}

/// The bits of the NaN that arithmetic gives where it has no number to give.
pub const NAN_BITS: u32 = 0x7fc0_0000;

/// Whether `r` is the product of `a` and `b` as IEEE-754 defines it: a NaN of a
/// NaN and of zero times infinity, else an infinity of an infinity, else the
/// exact product rounded to the nearest single; the sign is negative where the
/// signs differ.
pub open spec fn is_product(r: F32, a: F32, b: F32) -> bool {
    if a.nan() || b.nan() {
        r.nan()
    } else if a.infinite() || b.infinite() {
        if a.magnitude() == 0 || b.magnitude() == 0 {
            r.nan()
        } else {
            r.infinite() && r.sign() == (a.sign() != b.sign())
        }
    } else {
        rounds_to(r, a.sign() != b.sign(), a.scaled() * b.scaled(), pow2(149) as int)
    }
}

/// The parts of a finite single: the integer `s` and the exponent `e` of the form
/// `s * 2^e` of its absolute value.
fn parts(f: F32) -> (r: (u32, i32))
    requires
        f.finite(),
    ensures
        r.0 == f.significand(),
        r.1 == f.exponent(),
        r.0 < 0x100_0000,
        -149 <= r.1 <= 104,
        (r.0 == 0) == (f.magnitude() == 0),
        r.1 > -149 ==> r.0 >= 0x80_0000,
{
    let mag: u32 = f.bits % 0x8000_0000;
    let ef: u32 = mag / 0x80_0000;
    let frac: u32 = mag % 0x80_0000;
    if ef == 0 {
        (frac, -149)
    } else {
        (0x80_0000 + frac, ef as i32 - 150)
    }
}

impl F32 {
    /// The product of two singles.
    pub fn mul(self, other: F32) -> (r: F32)
        ensures
            is_product(r, self, other),
    {
        let negative: bool = self.is_sign_negative() != other.is_sign_negative();
        let top: u32 = if negative {
            0x8000_0000
        } else {
            0
        };
        let ma: u32 = self.bits % 0x8000_0000;
        let mb: u32 = other.bits % 0x8000_0000;
        if ma > 0x7f80_0000 || mb > 0x7f80_0000 {
            return F32 { bits: NAN_BITS };
        }
        if ma == 0x7f80_0000 || mb == 0x7f80_0000 {
            if ma == 0 || mb == 0 {
                return F32 { bits: NAN_BITS };
            }
            return F32 { bits: top + 0x7f80_0000 };
        }
        let (sa, ea) = parts(self);
        let (sb, eb) = parts(other);
        assert(sa * sb < 0x1_0000_0000_0000) by (nonlinear_arith)
            requires
                sa < 0x100_0000,
                sb < 0x100_0000,
        ;
        let n: u128 = (sa as u128) * (sb as u128);
        let e: i32 = ea + eb;
        let ghost num = self.scaled() * other.scaled();
        let ghost den = pow2(149) as int;
        proof {
            let pa = pow2((ea + 149) as nat);
            let pb = pow2((eb + 149) as nat);
            lemma_pow2_pos(149);
            lemma_pow2_pos((ea + 149) as nat);
            lemma_pow2_pos((eb + 149) as nat);
            lemma_pow2_adds((ea + 149) as nat, (eb + 149) as nat);
            let pab = pow2((ea + eb + 298) as nat);
            assert(num == n * pab) by (nonlinear_arith)
                requires
                    num == (sa * pa) * (sb * pb),
                    n == sa * sb,
                    pab == pa * pb,
            ;
            assert(n >= 0 && pab >= 0);
            assert(num >= 0) by (nonlinear_arith)
                requires
                    num == n * pab,
                    n >= 0,
                    pab >= 0,
            ;
            if e + 149 >= 0 {
                let p = pow2((e + 149) as nat);
                lemma_pow2_adds((e + 149) as nat, 149);
                assert((2 * n) * (p * den) == 2 * num) by (nonlinear_arith)
                    requires
                        num == n * pab,
                        pab == p * den,
                ;
                lemma_pow2_pos((e + 149) as nat);
                assert((2 * n + 1) * (p * den) > (2 * n) * (p * den)) by (nonlinear_arith)
                    requires
                        p > 0,
                        den > 0,
                ;
            } else {
                let p = pow2((-(e + 149)) as nat);
                lemma_pow2_adds((ea + eb + 298) as nat, (-(e + 149)) as nat);
                assert((2 * n) * den == 2 * num * p) by (nonlinear_arith)
                    requires
                        num == n * pab,
                        den == pab * p,
                ;
                assert((2 * n + 1) * den > (2 * n) * den) by (nonlinear_arith)
                    requires
                        den > 0,
                ;
            }
        }
        round(negative, n, false, false, e, Ghost(num), Ghost(den))
    }
}

/// Whether `r` is the quotient of `a` by `b` as IEEE-754 defines it: a NaN of a
/// NaN, of two infinities and of two zeros, else an infinity of an infinity and
/// of a division by zero, else a zero of a division by an infinity, else the
/// exact quotient rounded to the nearest single; the sign is negative where the
/// signs differ.
pub open spec fn is_quotient(r: F32, a: F32, b: F32) -> bool {
    let negative = a.sign() != b.sign();
    if a.nan() || b.nan() {
        r.nan()
    } else if a.infinite() {
        if b.infinite() {
            r.nan()
        } else {
            r.infinite() && r.sign() == negative
        }
    } else if b.infinite() {
        r.magnitude() == 0 && r.sign() == negative
    } else if b.magnitude() == 0 {
        if a.magnitude() == 0 {
            r.nan()
        } else {
            r.infinite() && r.sign() == negative
        }
    } else {
        rounds_to(r, negative, a.scaled() * pow2(149), b.scaled())
    }
}

impl F32 {
    /// The quotient of two singles.
    pub fn div(self, other: F32) -> (r: F32)
        ensures
            is_quotient(r, self, other),
    {
        let negative: bool = self.is_sign_negative() != other.is_sign_negative();
        let top: u32 = if negative {
            0x8000_0000
        } else {
            0
        };
        let ma: u32 = self.bits % 0x8000_0000;
        let mb: u32 = other.bits % 0x8000_0000;
        if ma > 0x7f80_0000 || mb > 0x7f80_0000 {
            return F32 { bits: NAN_BITS };
        }
        if ma == 0x7f80_0000 {
            if mb == 0x7f80_0000 {
                return F32 { bits: NAN_BITS };
            }
            return F32 { bits: top + 0x7f80_0000 };
        }
        if mb == 0x7f80_0000 {
            return F32 { bits: top };
        }
        if mb == 0 {
            if ma == 0 {
                return F32 { bits: NAN_BITS };
            }
            return F32 { bits: top + 0x7f80_0000 };
        }
        let (sa, ea) = parts(self);
        let (sb, eb) = parts(other);
        let ghost pa = pow2((ea + 149) as nat);
        let ghost pb = pow2((eb + 149) as nat);
        let ghost num = self.scaled() * pow2(149);
        let ghost den = other.scaled();
        proof {
            lemma_pow2_pos(149);
            lemma_pow2_pos((ea + 149) as nat);
            lemma_pow2_pos((eb + 149) as nat);
            assert(den > 0) by (nonlinear_arith)
                requires
                    den == sb * pb,
                    sb > 0,
                    pb > 0,
            ;
            assert(num >= 0) by (nonlinear_arith)
                requires
                    num == (sa * pa) * pow2(149),
                    sa >= 0,
                    pa > 0,
                    pow2(149) > 0,
            ;
        }
        if sa == 0 {
            proof {
                assert(num == 0) by (nonlinear_arith)
                    requires
                        num == (sa * pa) * pow2(149),
                        sa == 0,
                ;
                lemma2_to64();
                assert(0 * (pow2(0) * den) == 0) by (nonlinear_arith);
                assert(1 * (pow2(0) * den) > 0) by (nonlinear_arith)
                    requires
                        pow2(0) == 1,
                        den > 0,
                ;
                assert(brackets(0, false, false, -149, num, den));
            }
            return round(negative, 0, false, false, -149, Ghost(num), Ghost(den));
        }
        let numer: u128 = (sa as u128) * 0x1_0000_0000_0000_0000;
        let n: u128 = numer / (sb as u128);
        let rem: u128 = numer % (sb as u128);
        let half: bool = 2 * rem >= sb as u128;
        let sticky: bool = rem != 0 && 2 * rem != sb as u128;
        let e: i32 = ea - eb - 64;
        proof {
            let t = 2 * n + if half {
                1int
            } else {
                0int
            };
            assert(numer == n * sb + rem) by {
                vstd::arithmetic::div_mod::lemma_fundamental_div_mod(numer as int, sb as int);
                assert(sb * n == n * sb) by (nonlinear_arith);
            }
            assert(t * sb <= 2 * numer < (t + 1) * sb && (sticky <==> t * sb != 2 * numer))
                by (nonlinear_arith)
                requires
                    numer == n * sb + rem,
                    0 <= rem < sb,
                    t == 2 * n + if half {
                        1int
                    } else {
                        0int
                    },
                    half == (2 * rem >= sb),
                    sticky == (rem != 0 && 2 * rem != sb),
            ;
            assert(n >= 0x100_0000) by (nonlinear_arith)
                requires
                    numer == n * sb + rem,
                    rem < sb,
                    0 < sb < 0x100_0000,
                    numer >= 0x1_0000_0000_0000_0000,
                    n >= 0,
            ;
            assert(n <= numer) by (nonlinear_arith)
                requires
                    numer == n * sb + rem,
                    rem >= 0,
                    sb >= 1,
                    n >= 0,
            ;
            lemma2_to64();
            if e + 149 >= 0 {
                let p = pow2((e + 149) as nat);
                let k = p * pb;
                lemma_pow2_pos((e + 149) as nat);
                lemma_pow2_adds((e + 149) as nat, (eb + 149) as nat);
                lemma_pow2_adds((e + 149 + eb + 149) as nat, 64);
                lemma_pow2_adds((ea + 149) as nat, 149);
                assert(k * 0x1_0000_0000_0000_0000 == pa * pow2(149));
                assert(t * (p * den) == (t * sb) * k) by (nonlinear_arith)
                    requires
                        den == sb * pb,
                        k == p * pb,
                ;
                assert((t + 1) * (p * den) == ((t + 1) * sb) * k) by (nonlinear_arith)
                    requires
                        den == sb * pb,
                        k == p * pb,
                ;
                assert((2 * numer) * k == 2 * num) by (nonlinear_arith)
                    requires
                        numer == sa * 0x1_0000_0000_0000_0000,
                        k * 0x1_0000_0000_0000_0000 == pa * pow2(149),
                        num == (sa * pa) * pow2(149),
                ;
                assert(k > 0) by (nonlinear_arith)
                    requires
                        k == p * pb,
                        p > 0,
                        pb > 0,
                ;
                assert((t * sb) * k <= (2 * numer) * k < ((t + 1) * sb) * k && ((t * sb) * k != (2
                    * numer) * k <==> t * sb != 2 * numer)) by (nonlinear_arith)
                    requires
                        t * sb <= 2 * numer < (t + 1) * sb,
                        k > 0,
                ;
            } else {
                let p = pow2((-(e + 149)) as nat);
                lemma_pow2_pos((-(e + 149)) as nat);
                lemma_pow2_adds((eb + 149) as nat, 64);
                lemma_pow2_adds((ea + 149) as nat, 149);
                lemma_pow2_adds((ea + 298) as nat, (-(e + 149)) as nat);
                assert(pb * 0x1_0000_0000_0000_0000 == (pa * pow2(149)) * p);
                assert(t * den == (t * sb) * pb) by (nonlinear_arith)
                    requires
                        den == sb * pb,
                ;
                assert((t + 1) * den == ((t + 1) * sb) * pb) by (nonlinear_arith)
                    requires
                        den == sb * pb,
                ;
                assert((2 * numer) * pb == 2 * num * p) by (nonlinear_arith)
                    requires
                        numer == sa * 0x1_0000_0000_0000_0000,
                        pb * 0x1_0000_0000_0000_0000 == (pa * pow2(149)) * p,
                        num == (sa * pa) * pow2(149),
                ;
                assert((t * sb) * pb <= (2 * numer) * pb < ((t + 1) * sb) * pb && ((t * sb) * pb
                    != (2 * numer) * pb <==> t * sb != 2 * numer)) by (nonlinear_arith)
                    requires
                        t * sb <= 2 * numer < (t + 1) * sb,
                        pb > 0,
                ;
            }
        }
        round(negative, n, half, sticky, e, Ghost(num), Ghost(den))
    }
}

/// Whether `r` is the difference of `a` and `b` as IEEE-754 defines it: a NaN of
/// a NaN and of two equal infinities, else an infinity of an infinity, else the
/// exact difference rounded to the nearest single. A difference of zero is the
/// zero without a sign, but for the zero with a sign less the zero without one.
pub open spec fn is_difference(r: F32, a: F32, b: F32) -> bool {
    if a.nan() || b.nan() {
        r.nan()
    } else if a.infinite() {
        if b.infinite() && a.sign() == b.sign() {
            r.nan()
        } else {
            r == a
        }
    } else if b.infinite() {
        r.infinite() && r.sign() == !b.sign()
    } else {
        let d = a.signed_scaled() - b.signed_scaled();
        if d == 0 {
            r.magnitude() == 0 && r.sign() == (a.sign() && !b.sign())
        } else {
            rounds_to(r, d < 0, if d < 0 {
                -d
            } else {
                d
            }, 1)
        }
    }
}

/// Two to the power of `k`.
fn two_to(k: u32) -> (r: u128)
    requires
        k <= 100,
    ensures
        r == pow2(k as nat),
        r <= 0x10_0000_0000_0000_0000_0000_0000,
{
    let mut r: u128 = 1;
    let mut i: u32 = 0;
    proof {
        lemma2_to64();
        vstd::arithmetic::power2::lemma2_to64_rest();
        lemma_pow2_adds(64, 36);
        assert(pow2(100) == 0x10_0000_0000_0000_0000_0000_0000) by (nonlinear_arith)
            requires
                pow2(100) == pow2(64) * pow2(36),
                pow2(64) == 0x1_0000_0000_0000_0000,
                pow2(36) == 0x10_0000_0000,
        ;
    }
    while i < k
        invariant
            i <= k <= 100,
            r == pow2(i as nat),
            pow2(100) == 0x10_0000_0000_0000_0000_0000_0000,
        decreases k - i,
    {
        proof {
            lemma_pow2_unfold((i + 1) as nat);
            if i + 1 < 100 {
                lemma_pow2_strictly_increases((i + 1) as nat, 100);
            }
        }
        r = r * 2;
        i = i + 1;
    }
    proof {
        if k < 100 {
            lemma_pow2_strictly_increases(k as nat, 100);
        }
    }
    r
}

/// The value of a single with the sign `negative` and the absolute value `m`.
spec fn signed(negative: bool, m: int) -> int {
    if negative {
        -m
    } else {
        m
    }
}

/// The sum of two values of the form `s * 2^e` with a sign, counted in units of
/// `2^-149`.
spec fn sum_of(nh: bool, sh: int, eh: int, nl: bool, sl: int, el: int) -> int {
    signed(nh, sh * pow2((eh + 149) as nat)) + signed(nl, sl * pow2((el + 149) as nat))
}

/// Whether `r` is the exact sum `d` of two finite singles, rounded to the nearest
/// single. A sum of zero is the zero without a sign, unless both were negative.
spec fn is_sum(r: F32, d: int, both_negative: bool) -> bool {
    if d == 0 {
        r.magnitude() == 0 && r.sign() == both_negative
    } else {
        rounds_to(r, d < 0, if d < 0 {
            -d
        } else {
            d
        }, 1)
    }
}

/// The sum of two values whose exponents are at most 100 apart: the greater one
/// is brought to the exponent of the smaller one, and the sum is exact.
fn add_near(nh: bool, sh: u32, eh: i32, nl: bool, sl: u32, el: i32) -> (r: F32)
    requires
        sh < 0x100_0000,
        sl < 0x100_0000,
        -149 <= el <= eh <= 104,
        eh - el <= 100,
    ensures
        is_sum(r, sum_of(nh, sh as int, eh as int, nl, sl as int, el as int), nh && nl),
{
    let ghost d = sum_of(nh, sh as int, eh as int, nl, sl as int, el as int);
    let ghost u = pow2((el + 149) as nat);
    let ghost hs = sh * pow2((eh + 149) as nat);
    let ghost ls = sl * u;
    let gap: u32 = (eh - el) as u32;
    let scale: u128 = two_to(gap);
    assert(sh * scale <= 0xff_ffff * 0x10_0000_0000_0000_0000_0000_0000) by (nonlinear_arith)
        requires
            sh <= 0xff_ffff,
            0 <= scale <= 0x10_0000_0000_0000_0000_0000_0000,
    ;
    let x: u128 = (sh as u128) * scale;
    proof {
        lemma_pow2_pos((el + 149) as nat);
        lemma_pow2_adds(gap as nat, (el + 149) as nat);
        assert(hs == x * u) by (nonlinear_arith)
            requires
                hs == sh * pow2((eh + 149) as nat),
                pow2((eh + 149) as nat) == pow2(gap as nat) * u,
                x == sh * pow2(gap as nat),
        ;
    }
    let n: u128;
    let negative: bool;
    if nh == nl {
        n = x + sl as u128;
        negative = nh;
    } else if x >= sl as u128 {
        n = x - sl as u128;
        negative = nh && n != 0;
    } else {
        n = sl as u128 - x;
        negative = nl;
    }
    let ghost num: int = n * u;
    proof {
        assert(num == (if nh == nl {
            hs + ls
        } else if x >= sl {
            hs - ls
        } else {
            ls - hs
        })) by (nonlinear_arith)
            requires
                num == n * u,
                hs == x * u,
                ls == sl * u,
                n == (if nh == nl {
                    x + sl
                } else if x >= sl {
                    x - sl
                } else {
                    sl - x
                }),
        ;
        assert(num >= 0 && (n == 0 <==> num == 0)) by (nonlinear_arith)
            requires
                num == n * u,
                n >= 0,
                u > 0,
        ;
        assert(d == signed(negative, num));
        assert((2 * n) * (u * 1) == 2 * num) by (nonlinear_arith)
            requires
                num == n * u,
        ;
        assert((2 * n + 1) * (u * 1) > (2 * n) * (u * 1)) by (nonlinear_arith)
            requires
                u > 0,
        ;
    }
    if n == 0 {
        return F32 { bits: if negative {
            0x8000_0000
        } else {
            0
        } };
    }
    round(negative, n, false, false, el, Ghost(num), Ghost(1))
}

/// The sum of two values whose exponents are more than 100 apart: the smaller
/// one only says on which side of the greater one the sum lies.
fn add_far(nh: bool, sh: u32, eh: i32, nl: bool, sl: u32, el: i32) -> (r: F32)
    requires
        0x80_0000 <= sh < 0x100_0000,
        sl < 0x100_0000,
        -149 <= el,
        eh <= 104,
        eh - el > 100,
    ensures
        is_sum(r, sum_of(nh, sh as int, eh as int, nl, sl as int, el as int), nh && nl),
{
    let ghost d = sum_of(nh, sh as int, eh as int, nl, sl as int, el as int);
    let ghost u = pow2((el + 149) as nat);
    let ghost p = pow2((eh + 149) as nat);
    let ghost hs = sh * p;
    let ghost ls = sl * u;
    let ghost u3 = pow2((eh + 146) as nat);
    let ghost num: int = if nh == nl {
        hs + ls
    } else {
        hs - ls
    };
    proof {
        lemma_pow2_pos((el + 149) as nat);
        lemma_pow2_pos((eh + 149) as nat);
        lemma_pow2_pos((eh + 146) as nat);
        lemma2_to64();
        lemma_pow2_adds((eh + 146) as nat, 3);
        assert(hs == (sh * 8) * u3) by (nonlinear_arith)
            requires
                hs == sh * p,
                p == u3 * 8,
        ;
        lemma_pow2_adds((el + 149) as nat, 25);
        if el + 174 < eh + 146 {
            lemma_pow2_strictly_increases((el + 174) as nat, (eh + 146) as nat);
        }
        assert(0 <= 2 * ls < u3) by (nonlinear_arith)
            requires
                ls == sl * u,
                0 <= sl < 0x100_0000,
                u * 0x200_0000 <= u3,
                u > 0,
        ;
        assert((sl == 0) == (ls == 0)) by (nonlinear_arith)
            requires
                ls == sl * u,
                u > 0,
                sl >= 0,
        ;
        assert(hs >= 0x400_0000 * u3) by (nonlinear_arith)
            requires
                hs == (sh * 8) * u3,
                sh >= 0x80_0000,
                u3 > 0,
        ;
        assert(num > 0);
        assert(d == signed(nh, num));
    }
    if sl == 0 {
        proof {
            assert((2 * sh) * (p * 1) == 2 * num) by (nonlinear_arith)
                requires
                    num == sh * p,
            ;
            assert((2 * sh + 1) * (p * 1) > (2 * sh) * (p * 1)) by (nonlinear_arith)
                requires
                    p > 0,
            ;
        }
        round(nh, sh as u128, false, false, eh, Ghost(num), Ghost(1))
    } else if nh == nl {
        let x8: u128 = (sh as u128) * 8;
        proof {
            assert((2 * x8) * (u3 * 1) < 2 * num < (2 * x8 + 1) * (u3 * 1)) by (nonlinear_arith)
                requires
                    num == hs + ls,
                    hs == x8 * u3,
                    0 < 2 * ls < u3,
            ;
        }
        round(nh, x8, false, true, eh - 3, Ghost(num), Ghost(1))
    } else {
        let x8: u128 = (sh as u128) * 8;
        proof {
            assert((2 * (x8 - 1) + 1) * (u3 * 1) < 2 * num < (2 * (x8 - 1) + 2) * (u3 * 1))
                by (nonlinear_arith)
                requires
                    num == hs - ls,
                    hs == x8 * u3,
                    0 < 2 * ls < u3,
            ;
        }
        round(nh, x8 - 1, true, true, eh - 3, Ghost(num), Ghost(1))
    }
}

impl F32 {
    /// The difference of two singles.
    pub fn sub(self, other: F32) -> (r: F32)
        ensures
            is_difference(r, self, other),
    {
        let ma: u32 = self.bits % 0x8000_0000;
        let mb: u32 = other.bits % 0x8000_0000;
        let na: bool = self.is_sign_negative();
        let nb: bool = !other.is_sign_negative();
        if ma > 0x7f80_0000 || mb > 0x7f80_0000 {
            return F32 { bits: NAN_BITS };
        }
        if ma == 0x7f80_0000 {
            if mb == 0x7f80_0000 && na != nb {
                return F32 { bits: NAN_BITS };
            }
            return self;
        }
        if mb == 0x7f80_0000 {
            return F32 { bits: if nb {
                0xff80_0000
            } else {
                0x7f80_0000
            } };
        }
        let (sa, ea) = parts(self);
        let (sb, eb) = parts(other);
        assert(self.signed_scaled() - other.signed_scaled() == sum_of(
            na,
            sa as int,
            ea as int,
            nb,
            sb as int,
            eb as int,
        ));
        if ea >= eb {
            if ea - eb <= 100 {
                add_near(na, sa, ea, nb, sb, eb)
            } else {
                add_far(na, sa, ea, nb, sb, eb)
            }
        } else {
            if eb - ea <= 100 {
                add_near(nb, sb, eb, na, sa, ea)
            } else {
                add_far(nb, sb, eb, na, sa, ea)
            }
        }
    }
}

} // verus!
