//! Shannon entropy as a measured quantity, in bits per byte.
//!
//! The measurement itself is a sum of logarithms and is taken outside this
//! library. What the library needs is to hold the value, to compare it with a
//! threshold and to print it, and it does all three exactly, on the IEEE 754
//! double-precision encoding of the value.
use crate::text::{dec, decimal, pad_start, padded_start};
use vstd::arithmetic::power2::pow2;
use vstd::prelude::*;

verus! {

/// The encodings of 1, 5, 7, 7.5 and 16.
pub const ONE: u64 = 0x3ff0_0000_0000_0000;

pub const FIVE: u64 = 0x4014_0000_0000_0000;

pub const SEVEN: u64 = 0x401c_0000_0000_0000;

pub const SEVEN_AND_A_HALF: u64 = 0x401e_0000_0000_0000;

pub const SIXTEEN: u64 = 0x4030_0000_0000_0000;

/// At this entropy a section reads as compressed or encrypted.
pub const HIGH_ENTROPY: u64 = SEVEN;

/// 2 to the 52nd: the number of fraction values.
pub const FRACTIONS: u64 = 0x10_0000_0000_0000;

/// An entropy from 0 up to and excluding 16 bits per byte, held as the
/// encoding of a double-precision number. (No byte carries more than 8 bits;
/// the room above is for the error of the measurement.)
#[derive(Debug, Clone, Copy, PartialEq, Eq, Structural)]
pub struct Entropy {
    bits: u64,
}

/// The value that an encoding stands for, in units of 2 to the power -1074,
/// the least positive double: an integer for every encoding.
pub open spec fn units(bits: u64) -> int {
    let exponent = bits as int / FRACTIONS as int;
    let fraction = bits as int % FRACTIONS as int;
    if exponent == 0 {
        fraction
    } else {
        (FRACTIONS + fraction) * pow2((exponent - 1) as nat)
    }
}

/// The quotient rounded to the nearest integer, a tie to the even one.
pub open spec fn rounded(n: int, d: int) -> int {
    let q = n / d;
    let r = n % d;
    if 2 * r < d || (2 * r == d && q % 2 == 0) {
        q
    } else {
        q + 1
    }
}

/// The value times `scale`, rounded to the nearest integer.
pub open spec fn scaled(bits: u64, scale: int) -> int {
    rounded(units(bits) * scale, pow2(1074) as int)
}

/// The value with two digits behind the point, as `{:.2}` renders it.
pub open spec fn two_places(e: Entropy) -> Seq<char> {
    let q = scaled(e.bits(), 100);
    dec(q / 100) + "."@ + pad_start(dec(q % 100), 2, '0')
}

/// The value with three digits behind the point, as `{:.3}` renders it.
pub open spec fn three_places(e: Entropy) -> Seq<char> {
    let q = scaled(e.bits(), 1000);
    dec(q / 1000) + "."@ + pad_start(dec(q % 1000), 3, '0')
}

impl Entropy {
    pub closed spec fn bits(self) -> u64 {
        self.bits
    }

    #[verifier::type_invariant]
    spec fn in_range(self) -> bool {
        self.bits < SIXTEEN
    }

    /// The entropy with the given encoding.
    pub closed spec fn of_bits(bits: u64) -> Self {
        Entropy { bits }
    }

    /// The entropy of a buffer that carries no information.
    pub fn zero() -> (r: Self)
        ensures
            r == Self::of_bits(0),
            r.bits() == 0,
    {
        Entropy { bits: 0 }
    }

    /// The entropy with the given encoding; none where the encoding stands for
    /// a negative number, for 16 or more, or for no number.
    pub fn from_bits(bits: u64) -> (r: Option<Self>)
        ensures
            match r {
                Some(e) => bits < SIXTEEN && e.bits() == bits,
                None => bits >= SIXTEEN,
            },
    {
        if bits < SIXTEEN {
            Some(Entropy { bits })
        } else {
            None
        }
    }

    /// The encoding.
    pub fn to_bits(&self) -> (r: u64)
        ensures
            r == self.bits(),
            r < SIXTEEN,
    {
        proof {
            use_type_invariant(self);
        }
        self.bits
    }

    /// Is this at least the entropy with the given encoding?
    pub fn reaches(&self, threshold: u64) -> (r: bool)
        ensures
            r == (self.bits() >= threshold),
    {
        self.bits >= threshold
    }

    /// The value with two digits behind the point.
    pub fn to_two_places(&self) -> (r: String)
        ensures
            r@ == two_places(*self),
    {
        proof {
            use_type_invariant(self);
        }
        let q = round_scaled(self.bits, 100);
        let mut s = decimal(q / 100);
        s.append(".");
        s.append(padded_start(decimal(q % 100).as_str(), 2, '0').as_str());
        s
    }

    /// The value with three digits behind the point.
    pub fn to_three_places(&self) -> (r: String)
        ensures
            r@ == three_places(*self),
    {
        proof {
            use_type_invariant(self);
        }
        let q = round_scaled(self.bits, 1000);
        let mut s = decimal(q / 1000);
        s.append(".");
        s.append(padded_start(decimal(q % 1000).as_str(), 3, '0').as_str());
        s
    }
}

/// No entropy is negative.
pub proof fn lemma_scaled_positive(bits: u64, scale: int)
    requires
        scale >= 0,
    ensures
        scaled(bits, scale) >= 0,
{
    let u = units(bits);
    let d = pow2(1074) as int;
    vstd::arithmetic::power2::lemma_pow2_pos(1074);
    let exponent = bits as int / FRACTIONS as int;
    let fraction = bits as int % FRACTIONS as int;
    let p = pow2((exponent - 1) as nat);
    assert((FRACTIONS + fraction) * p >= 0) by (nonlinear_arith)
        requires
            fraction >= 0,
            p >= 0,
            FRACTIONS >= 0,
    ;
    assert(u * scale >= 0) by (nonlinear_arith)
        requires
            u >= 0,
            scale >= 0,
    ;
    let n = u * scale;
    assert(n / d >= 0) by (nonlinear_arith)
        requires
            n >= 0,
            d > 0,
    ;
}

/// A common factor of dividend and divisor does not change the rounding.
proof fn lemma_rounded_cancels(n: int, d: int, c: int)
    requires
        n >= 0,
        d > 0,
        c > 0,
    ensures
        rounded(n * c, d * c) == rounded(n, d),
{
    let q = n / d;
    let r = n % d;
    assert(n == d * q + r && 0 <= r < d) by (nonlinear_arith)
        requires
            d > 0,
            q == n / d,
            r == n % d,
    ;
    assert(n * c == q * (d * c) + r * c) by (nonlinear_arith)
        requires
            n == d * q + r,
    ;
    assert(0 <= r * c < d * c) by (nonlinear_arith)
        requires
            0 <= r < d,
            c > 0,
    ;
    vstd::arithmetic::div_mod::lemma_fundamental_div_mod_converse(n * c, d * c, q, r * c);
    assert(2 * r < d <==> 2 * (r * c) < d * c) by (nonlinear_arith)
        requires
            c > 0,
    ;
    assert(2 * r == d <==> 2 * (r * c) == d * c) by (nonlinear_arith)
        requires
            c > 0,
    ;
}

/// The significand and the binary exponent of an encoding below 16: the value
/// is the significand over 2 to the exponent.
proof fn lemma_units_split(bits: u64, significand: u64, exponent: u64)
    requires
        bits < SIXTEEN,
        significand == (if bits / FRACTIONS == 0 {
            bits % FRACTIONS
        } else {
            (FRACTIONS + bits % FRACTIONS) as u64
        }),
        exponent == (if bits / FRACTIONS == 0 {
            1074
        } else {
            1075 - bits / FRACTIONS
        }),
    ensures
        exponent <= 1074,
        units(bits) == significand * pow2((1074 - exponent) as nat),
        pow2(1074) == pow2(exponent as nat) * pow2((1074 - exponent) as nat),
{
    vstd::arithmetic::power2::lemma_pow2_adds(exponent as nat, (1074 - exponent) as nat);
    vstd::arithmetic::power2::lemma2_to64();
    let field = bits as int / FRACTIONS as int;
    if field == 0 {
        assert(pow2(0) == 1);
        assert(significand * pow2(0) == significand);
    } else {
        assert((1074 - exponent) as nat == (field - 1) as nat);
        assert(significand as int == FRACTIONS + bits as int % FRACTIONS as int);
    }
}

/// The value that an encoding below 16 stands for, times `scale`, rounded.
fn round_scaled(bits: u64, scale: u64) -> (r: u64)
    requires
        bits < SIXTEEN,
        0 < scale <= 1000,
    ensures
        r == scaled(bits, scale as int),
{
    let field = bits / FRACTIONS;
    let fraction = bits % FRACTIONS;
    let significand: u64 = if field == 0 {
        fraction
    } else {
        FRACTIONS + fraction
    };
    let exponent: u64 = if field == 0 {
        1074
    } else {
        1075 - field
    };
    let ghost common = pow2((1074 - exponent) as nat) as int;
    proof {
        lemma_units_split(bits, significand, exponent);
        vstd::arithmetic::power2::lemma_pow2_pos((1074 - exponent) as nat);
        vstd::arithmetic::power2::lemma_pow2_pos(exponent as nat);
        assert(significand * scale < 0x8000_0000_0000_0000) by (nonlinear_arith)
            requires
                significand < 2 * FRACTIONS,
                scale <= 1000,
        ;
        assert(units(bits) * scale == (significand * scale) * common) by (nonlinear_arith)
            requires
                units(bits) == significand * common,
        ;
        lemma_rounded_cancels(significand * scale, pow2(exponent as nat) as int, common);
    }
    let n = significand * scale;
    if exponent >= 64 {
        proof {
            vstd::arithmetic::power2::lemma2_to64();
            vstd::arithmetic::power2::lemma2_to64_rest();
            if exponent > 64 {
                vstd::arithmetic::power2::lemma_pow2_strictly_increases(64, exponent as nat);
            }
            let d = pow2(exponent as nat) as int;
            vstd::arithmetic::div_mod::lemma_basic_div(n as int, d);
            vstd::arithmetic::div_mod::lemma_small_mod(n as nat, d as nat);
        }
        return 0;
    }
    let mut d: u64 = 1;
    proof {
        vstd::arithmetic::power2::lemma2_to64();
    }
    for i in 0..exponent
        invariant
            exponent < 64,
            d == pow2(i as nat),
    {
        proof {
            vstd::arithmetic::power2::lemma_pow2_unfold((i + 1) as nat);
            vstd::arithmetic::power2::lemma2_to64_rest();
            if i + 1 < 63 {
                vstd::arithmetic::power2::lemma_pow2_strictly_increases((i + 1) as nat, 63);
            }
        }
        d = d * 2;
    }
    let q = n / d;
    let rest = n % d;
    proof {
        assert(rest < d) by (nonlinear_arith)
            requires
                d > 0,
                rest == n % d,
        ;
        assert(q <= n) by (nonlinear_arith)
            requires
                d > 0,
                q == n / d,
        ;
    }
    if rest < d - rest || (rest == d - rest && q % 2 == 0) {
        q
    } else {
        q + 1
    }
}

/// Encodings are ordered as the values they stand for.
pub proof fn law_encodings_keep_order(a: u64, b: u64)
    requires
        a < SIXTEEN,
        b < SIXTEEN,
    ensures
        a <= b <==> units(a) <= units(b),
{
    if a < b {
        lemma_order(a, b);
    } else if b < a {
        lemma_order(b, a);
    }
}

proof fn lemma_order(a: u64, b: u64)
    requires
        a < b < SIXTEEN,
    ensures
        units(a) < units(b),
{
    let f = FRACTIONS as int;
    let x = a as int / f;
    let y = b as int / f;
    let p = a as int % f;
    let q = b as int % f;
    vstd::arithmetic::power2::lemma2_to64();
    if x == y {
        if x > 0 {
            let w = pow2((x - 1) as nat) as int;
            vstd::arithmetic::power2::lemma_pow2_pos((x - 1) as nat);
            assert((f + p) * w < (f + q) * w) by (nonlinear_arith)
                requires
                    p < q,
                    w > 0,
            ;
        }
    } else {
        let w = pow2((y - 1) as nat) as int;
        vstd::arithmetic::power2::lemma_pow2_pos((y - 1) as nat);
        assert((f + q) * w >= f * w) by (nonlinear_arith)
            requires
                q >= 0,
                w > 0,
        ;
        if x == 0 {
            assert(f * w >= f) by (nonlinear_arith)
                requires
                    w >= 1,
                    f > 0,
            ;
        } else {
            let v = pow2((x - 1) as nat) as int;
            vstd::arithmetic::power2::lemma_pow2_pos((x - 1) as nat);
            vstd::arithmetic::power2::lemma_pow2_unfold(x as nat);
            if x < y - 1 {
                vstd::arithmetic::power2::lemma_pow2_strictly_increases(x as nat, (y - 1) as nat);
            }
            assert(2 * v <= w);
            assert((f + p) * v < f * w) by (nonlinear_arith)
                requires
                    0 <= p < f,
                    v > 0,
                    2 * v <= w,
            ;
        }
    }
}

/// The named encodings stand for the values they are named after.
pub proof fn law_thresholds_are_exact()
    ensures
        units(ONE) == pow2(1074),
        units(FIVE) == 5 * pow2(1074),
        units(SEVEN) == 7 * pow2(1074),
        2 * units(SEVEN_AND_A_HALF) == 15 * pow2(1074),
        units(SIXTEEN) == 16 * pow2(1074),
{
    vstd::arithmetic::power2::lemma2_to64();
    vstd::arithmetic::power2::lemma2_to64_rest();
    vstd::arithmetic::power2::lemma_pow2_adds(52, 1022);
    vstd::arithmetic::power2::lemma_pow2_adds(50, 1024);
    vstd::arithmetic::power2::lemma_pow2_adds(2, 1024);
    assert(SIXTEEN as int / FRACTIONS as int == 1027 && SIXTEEN as int % FRACTIONS as int == 0);
    let w = pow2(1024) as int;
    assert(FIVE as int / FRACTIONS as int == 1025 && FIVE as int % FRACTIONS as int
        == 0x4_0000_0000_0000);
    assert(SEVEN as int / FRACTIONS as int == 1025 && SEVEN as int % FRACTIONS as int
        == 0xc_0000_0000_0000);
    assert(SEVEN_AND_A_HALF as int / FRACTIONS as int == 1025 && SEVEN_AND_A_HALF as int
        % FRACTIONS as int == 0xe_0000_0000_0000);
    assert(units(FIVE) == 0x14_0000_0000_0000 * w);
    assert(units(SEVEN) == 0x1c_0000_0000_0000 * w);
    assert(units(SEVEN_AND_A_HALF) == 0x1e_0000_0000_0000 * w);
    assert(pow2(1074) == 0x4_0000_0000_0000 * w);
}

/// The rounded quotient is a nearest integer: it is off by no more than a half.
pub proof fn law_rounding_is_nearest(n: int, d: int)
    requires
        n >= 0,
        d > 0,
    ensures
        -d <= 2 * (n - rounded(n, d) * d) <= d,
{
    let q = n / d;
    let r = n % d;
    assert(n == d * q + r && 0 <= r < d) by (nonlinear_arith)
        requires
            d > 0,
            q == n / d,
            r == n % d,
    ;
    assert(n - q * d == r) by (nonlinear_arith)
        requires
            n == d * q + r,
    ;
    assert(n - (q + 1) * d == r - d) by (nonlinear_arith)
        requires
            n == d * q + r,
    ;
}

// ---------------------------------------------------------------------------
// The histogram that the measurement starts from
// ---------------------------------------------------------------------------

/// How often a byte value occurs.
pub open spec fn occurrences(data: Seq<u8>, value: int) -> int
    decreases data.len(),
{
    if data.len() == 0 {
        0
    } else {
        occurrences(data.drop_last(), value) + (if data.last() == value {
            1int
        } else {
            0
        })
    }
}

proof fn lemma_occurrences_bound(data: Seq<u8>, value: int)
    ensures
        0 <= occurrences(data, value) <= data.len(),
    decreases data.len(),
{
    if data.len() > 0 {
        lemma_occurrences_bound(data.drop_last(), value);
    }
}

/// How often each of the 256 byte values occurs.
pub fn byte_counts(data: &[u8]) -> (r: Vec<usize>)
    ensures
        r@.len() == 256,
        forall|v: int| 0 <= v < 256 ==> #[trigger] r@[v] == occurrences(data@, v),
{
    let mut counts: Vec<usize> = Vec::new();
    for i in 0..256usize
        invariant
            counts@.len() == i,
            forall|v: int| 0 <= v < i ==> #[trigger] counts@[v] == 0,
    {
        counts.push(0);
    }
    let total = data.len();
    for i in 0..total
        invariant
            total == data@.len(),
            counts@.len() == 256,
            forall|v: int|
                0 <= v < 256 ==> #[trigger] counts@[v] == occurrences(data@.take(i as int), v),
    {
        let b = data[i] as usize;
        proof {
            assert(data@.take(i + 1).drop_last() =~= data@.take(i as int));
            lemma_occurrences_bound(data@.take(i as int), b as int);
        }
        counts[b] = counts[b] + 1;
    }
    proof {
        assert(data@.take(data@.len() as int) =~= data@);
    }
    counts
}

} // verus!
