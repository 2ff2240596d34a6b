use vstd::arithmetic::div_mod::{lemma_fundamental_div_mod, lemma_fundamental_div_mod_converse, lemma_mod_bound};
use vstd::arithmetic::power2::{lemma2_to64, lemma_pow2_pos, lemma_pow2_unfold, pow2};
use vstd::prelude::*;

verus! {

/// A non-negative rational number, `num / den`. It stands for the real
/// numbers of a knitting pattern: a gauge, a length per stitch, the number
/// of pixels that one stitch covers.
#[derive(Clone, Copy, Debug)]
pub struct Ratio {
    pub num: u32,
    pub den: u32,
}

impl Ratio {
    /// A ratio is a number when its denominator is not zero.
    pub open spec fn wf(&self) -> bool {
        self.den > 0
    }

    /// The ratio is a number above zero.
    pub open spec fn positive(&self) -> bool {
        self.num > 0 && self.den > 0
    }

    /// The ratio `num / den`.
    pub fn new(num: u32, den: u32) -> (r: Ratio)
        ensures
            r.num == num,
            r.den == den,
    {
        Ratio { num, den }
    }

    /// The whole number `n`.
    pub fn from_int(n: u32) -> (r: Ratio)
        ensures
            r.num == n,
            r.den == 1,
    {
        Ratio { num: n, den: 1 }
    }
}

/// `a / b` rounded to the nearest whole number, a half rounded up.
pub open spec fn round_div(a: int, b: int) -> int {
    (2 * a + b) / (2 * b)
}

/// `k` times the ratio, rounded to the nearest whole number.
pub open spec fn scaled(k: int, ratio: Ratio) -> int {
    round_div(k * ratio.num, ratio.den as int)
}

/// `round_div` on machine integers.
pub fn round_div_u128(a: u128, b: u128) -> (r: u128)
    requires
        b > 0,
        2 * a + b <= u128::MAX,
        2 * b <= u128::MAX,
    ensures
        r == round_div(a as int, b as int),
{
    (2 * a + b) / (2 * b)
}

/// `a / b` rounded, and no more than `limit`.
pub open spec fn clamped_round(a: int, b: int, limit: int) -> int {
    if round_div(a, b) < limit {
        round_div(a, b)
    } else {
        limit
    }
}

/// `clamped_round` on machine integers.
pub fn clamped_round_u128(a: u128, b: u128, limit: u32) -> (r: u32)
    requires
        b > 0,
        2 * a + b <= u128::MAX,
        2 * b <= u128::MAX,
    ensures
        r == clamped_round(a as int, b as int, limit as int),
{
    let exact = round_div_u128(a, b);
    if exact < limit as u128 {
        exact as u32
    } else {
        limit
    }
}

/// `k` times the ratio, rounded, and no more than `limit`.
pub fn scaled_up_to(k: u32, ratio: Ratio, limit: u32) -> (r: u32)
    requires
        ratio.wf(),
    ensures
        r == if scaled(k as int, ratio) < limit { scaled(k as int, ratio) } else { limit as int },
{
    assert(k * ratio.num <= 0xffff_ffff * 0xffff_ffff) by (nonlinear_arith)
        requires
            k <= 0xffff_ffff,
            ratio.num <= 0xffff_ffff,
    ;
    let a: u128 = (k as u128) * (ratio.num as u128);
    let exact = round_div_u128(a, ratio.den as u128);
    if exact < limit as u128 {
        exact as u32
    } else {
        limit
    }
}

/// A whole number times `b`, by `b`, is that number.
pub proof fn lemma_round_whole(k: int, b: int)
    requires
        b > 0,
    ensures
        round_div(k * b, b) == k,
{
    assert(2 * (k * b) + b == k * (2 * b) + b) by (nonlinear_arith);
    lemma_fundamental_div_mod_converse(2 * (k * b) + b, 2 * b, k, b);
}

/// What a rounded quotient says of the number that was divided.
pub proof fn lemma_round_div_bounds(a: int, b: int)
    requires
        b > 0,
    ensures
        2 * b * round_div(a, b) <= 2 * a + b < 2 * b * round_div(a, b) + 2 * b,
{
    lemma_fundamental_div_mod(2 * a + b, 2 * b);
    lemma_mod_bound(2 * a + b, 2 * b);
}

/// Where `h` rows of the height `a / b` are `h` rows of the height 1,
/// rounded, each row below them begins at its own number, and they end
/// no earlier than at `h`.
pub proof fn lemma_round_identity(h: int, a: int, b: int, k: int)
    requires
        a > 0,
        b > 0,
        h >= 1,
        round_div(h * b, a) == h,
        0 <= k <= h,
    ensures
        k < h ==> round_div(k * a, b) == k,
        round_div(k * a, b) >= k,
{
    lemma_round_div_bounds(h * b, a);
    // 2ah <= 2hb + a < 2ah + 2a
    assert(2 * a * h <= 2 * (h * b) + a < 2 * a * h + 2 * a);
    let low = 2 * k * (b - a);
    let high = 2 * k * (a - b);
    assert(low <= b && (k < h ==> high < b)) by (nonlinear_arith)
        requires
            low == 2 * k * (b - a),
            high == 2 * k * (a - b),
            2 * a * h <= 2 * (h * b) + a < 2 * a * h + 2 * a,
            a > 0,
            b > 0,
            h >= 1,
            0 <= k <= h,
    {
        if a >= b {
            assert(2 * h * (a - b) <= a);
            assert(2 * k * (b - a) <= 0);
            if k < h {
                assert((2 * h - 1) * (a - b) <= b);
                assert(2 * k * (a - b) <= (2 * h - 2) * (a - b));
            }
        } else {
            assert(2 * h * (b - a) < a);
            assert((2 * h + 1) * (b - a) < b);
            assert(2 * k * (b - a) <= 2 * h * (b - a));
            assert(2 * k * (a - b) <= 0);
        }
    }
    assert(2 * (k * a) + b == k * (2 * b) + (b - low)) by (nonlinear_arith)
        requires
            low == 2 * k * (b - a),
    ;
    if k < h {
        assert(b - low == b + high) by (nonlinear_arith)
            requires
                low == 2 * k * (b - a),
                high == 2 * k * (a - b),
        ;
        lemma_fundamental_div_mod_converse(2 * (k * a) + b, 2 * b, k, b - low);
    } else {
        lemma_round_div_bounds(k * a, b);
        let q = round_div(k * a, b);
        assert(q >= k) by (nonlinear_arith)
            requires
                2 * (k * a) + b < 2 * b * q + 2 * b,
                2 * (k * a) + b == k * (2 * b) + (b - low),
                low <= b,
                b > 0,
        ;
    }
}

/// The bits are those of a 32-bit binary float that is above zero and
/// normal: neither zero, too small to have its full precision, infinite
/// nor a number at all.
pub open spec fn is_positive_normal(bits: u32) -> bool {
    bits < 0x8000_0000 && 1 <= bits / 0x80_0000 % 256 <= 254
}

/// The digits of a normal float: it is `float_mantissa(bits)` times 2 to
/// the power of `float_exponent(bits)`.
pub open spec fn float_mantissa(bits: u32) -> nat {
    (0x80_0000 + bits % 0x80_0000) as nat
}

/// See `float_mantissa`.
pub open spec fn float_exponent(bits: u32) -> int {
    bits / 0x80_0000 % 256 - 150
}

/// `m / 2^k` in lowest terms: the numerator, and the power of the
/// denominator.
pub open spec fn halved(m: nat, k: nat) -> (nat, nat)
    decreases k,
{
    if k > 0 && m % 2 == 0 {
        halved(m / 2, (k - 1) as nat)
    } else {
        (m, k)
    }
}

/// The ratio that stands for the float with the given bits. It is the
/// float itself where that is a whole number below `2^31` or has a
/// denominator of no more than `2^31` in lowest terms. A float with a
/// larger denominator has the nearest ratio with the denominator `2^31`,
/// a half rounded up. There is no ratio for a float that is not above
/// zero and normal, that is `2^31` or more, or that is nearer to zero
/// than to `1 / 2^31`.
pub open spec fn float_ratio(bits: u32) -> Option<Ratio> {
    let m = float_mantissa(bits);
    let e = float_exponent(bits);
    if !is_positive_normal(bits) {
        None
    } else if e >= 0 {
        if e <= 7 {
            Some(Ratio { num: (m * pow2(e as nat)) as u32, den: 1 })
        } else {
            None
        }
    } else {
        let (num, k) = halved(m, (-e) as nat);
        if k <= 31 {
            Some(Ratio { num: num as u32, den: pow2(k) as u32 })
        } else {
            let nearest = round_div(num as int, pow2((k - 31) as nat) as int);
            if nearest >= 1 {
                Some(Ratio { num: nearest as u32, den: 0x8000_0000 })
            } else {
                None
            }
        }
    }
}

/// The float with the given bits is held as it is: its ratio is not a
/// rounded one.
pub open spec fn float_is_exact(bits: u32) -> bool {
    float_exponent(bits) >= 0 || halved(float_mantissa(bits), (-float_exponent(bits)) as nat).1
        <= 31
}

/// A number below `2^24` by a power of two, rounded.
proof fn lemma_nearest(num: nat, shift: nat)
    requires
        num < 0x100_0000,
        shift >= 1,
    ensures
        0 <= round_div(num as int, pow2(shift) as int) <= 0x80_0000,
        shift >= 25 ==> round_div(num as int, pow2(shift) as int) == 0,
{
    lemma2_to64();
    lemma_pow2_pos(shift);
    let p = pow2(shift) as int;
    assert(p >= 2) by {
        if shift > 1 {
            vstd::arithmetic::power2::lemma_pow2_strictly_increases(1, shift);
        }
    }
    if shift >= 25 {
        if shift > 25 {
            vstd::arithmetic::power2::lemma_pow2_strictly_increases(25, shift);
        }
        assert(p >= 0x200_0000);
    }
    lemma_round_div_bounds(num as int, p);
    let q = round_div(num as int, p);
    assert(0 <= q <= 0x80_0000 && (p >= 0x200_0000 ==> q == 0)) by (nonlinear_arith)
        requires
            2 * p * q <= 2 * num + p < 2 * p * q + 2 * p,
            0 <= num < 0x100_0000,
            p >= 2,
    ;
}


/// To strip the factors of two changes nothing in the number.
pub proof fn lemma_halved(m: nat, k: nat)
    ensures
        halved(m, k).1 <= k,
        halved(m, k).0 <= m,
        m > 0 ==> halved(m, k).0 > 0,
        halved(m, k).0 * pow2(k) == m * pow2(halved(m, k).1),
    decreases k,
{
    if k > 0 && m % 2 == 0 {
        lemma_halved(m / 2, (k - 1) as nat);
        lemma_pow2_unfold(k);
        let (n, j) = halved(m / 2, (k - 1) as nat);
        assert(n * pow2(k) == m * pow2(j)) by (nonlinear_arith)
            requires
                n * pow2((k - 1) as nat) == (m / 2) * pow2(j),
                pow2(k) == 2 * pow2((k - 1) as nat),
                m == 2 * (m / 2),
        ;
    }
}

/// The ratio of a float is above zero, and its numerator is below
/// `2^31`. Where the float is held as it is, the ratio is the float: its
/// numerator by its denominator is the mantissa times two to the power of
/// the exponent.
pub proof fn lemma_float_ratio(bits: u32)
    ensures
        float_ratio(bits) matches Some(r) ==> {
            &&& r.positive()
            &&& r.num <= 0x7fff_ffff
            &&& r.den <= 0x8000_0000
            &&& float_exponent(bits) >= 0 ==> r.den == 1 && r.num == float_mantissa(bits) * pow2(
                float_exponent(bits) as nat,
            )
            &&& float_exponent(bits) < 0 && float_is_exact(bits) ==> r.num * pow2(
                (-float_exponent(bits)) as nat,
            ) == float_mantissa(bits) * r.den
        },
{
    let m = float_mantissa(bits);
    let e = float_exponent(bits);
    lemma2_to64();
    if is_positive_normal(bits) {
        if 0 <= e <= 7 {
            assert(0 < m * pow2(e as nat) <= 0xff_ffff * 0x80) by (nonlinear_arith)
                requires
                    0 < m <= 0xff_ffff,
                    0 < pow2(e as nat) <= 0x80,
            ;
        } else if e < 0 {
            lemma_halved(m, (-e) as nat);
            let (num, k) = halved(m, (-e) as nat);
            if k <= 31 {
                lemma_pow2_pos(k);
                assert(pow2(k) <= 0x8000_0000) by {
                    if k < 31 {
                        vstd::arithmetic::power2::lemma_pow2_strictly_increases(k, 31);
                    }
                }
            } else {
                lemma_nearest(num, (k - 31) as nat);
            }
        }
    }
}

/// Two to the power of `k`.
pub fn power_of_two(k: u32) -> (power: u32)
    requires
        k <= 31,
    ensures
        power == pow2(k as nat),
        1 <= power <= 0x8000_0000,
{
    proof {
        lemma2_to64();
    }
    let mut power: u32 = 1;
    let mut i: u32 = 0;
    while i < k
        invariant
            i <= k <= 31,
            power == pow2(i as nat),
            1 <= power <= pow2(30) || i == 31,
            i == 31 ==> power == 0x8000_0000,
            pow2(30) == 0x4000_0000,
            pow2(31) == 0x8000_0000,
        decreases k - i,
    {
        proof {
            lemma_pow2_unfold((i + 1) as nat);
            if i < 30 {
                vstd::arithmetic::power2::lemma_pow2_strictly_increases(i as nat, 30);
            }
            if i + 1 < 30 {
                vstd::arithmetic::power2::lemma_pow2_strictly_increases((i + 1) as nat, 30);
            }
        }
        power = power * 2;
        i = i + 1;
    }
    power
}

impl Ratio {
    /// The ratio that stands for the float with the given bits, where
    /// there is one.
    pub fn from_f32_bits(bits: u32) -> (result: Option<Ratio>)
        ensures
            result == float_ratio(bits),
            result matches Some(r) ==> r.positive() && r.num <= 0x7fff_ffff && r.den
                <= 0x8000_0000,
    {
        proof {
            lemma_float_ratio(bits);
        }
        let exponent: u32 = bits / 0x80_0000 % 256;
        if bits >= 0x8000_0000 || exponent < 1 || exponent > 254 {
            return None;
        }
        let mantissa: u32 = 0x80_0000 + bits % 0x80_0000;
        if exponent >= 150 {
            if exponent > 157 {
                return None;
            }
            let factor = power_of_two(exponent - 150);
            proof {
                lemma2_to64();
                if exponent < 157 {
                    vstd::arithmetic::power2::lemma_pow2_strictly_increases(
                        (exponent - 150) as nat,
                        7,
                    );
                }
                assert(mantissa * factor <= 0xff_ffff * 0x80) by (nonlinear_arith)
                    requires
                        0 <= mantissa <= 0xff_ffff,
                        0 <= factor <= 0x80,
                ;
            }
            Some(Ratio { num: mantissa * factor, den: 1 })
        } else {
            let mut num: u32 = mantissa;
            let mut k: u32 = 150 - exponent;
            while k > 0 && num % 2 == 0
                invariant
                    halved(mantissa as nat, (150 - exponent) as nat) == halved(num as nat, k as nat),
                decreases k,
            {
                num = num / 2;
                k = k - 1;
            }
            proof {
                lemma_halved(mantissa as nat, (150 - exponent) as nat);
            }
            if k <= 31 {
                return Some(Ratio { num, den: power_of_two(k) });
            }
            proof {
                lemma_nearest(num as nat, (k - 31) as nat);
            }
            if k > 55 {
                return None;
            }
            let nearest = round_div_u128(num as u128, power_of_two(k - 31) as u128);
            if nearest >= 1 {
                Some(Ratio { num: nearest as u32, den: 0x8000_0000 })
            } else {
                None
            }
        }
    }
}

} // verus!
