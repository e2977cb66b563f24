//! Conversions between single-precision numbers and integers.

use crate::float::F32;
use vstd::arithmetic::power2::pow2;
use vstd::prelude::*;

verus! {

/// 2 to the power `k`.
pub open spec fn two_to(k: nat) -> nat
    decreases k,
{
    if k == 0 {
        1
    } else {
        2 * two_to((k - 1) as nat)
    }
}

/// How many binary digits a number has.
pub open spec fn bit_length(n: nat) -> nat
    decreases n,
{
    if n == 0 {
        0
    } else {
        1 + bit_length(n / 2)
    }
}

/// The 24 leading binary digits of a number, rounded to the nearest, ties to
/// the even one. A short number is padded with zeros behind.
pub open spec fn leading_digits(n: nat) -> nat {
    let k = bit_length(n);
    if k <= 24 {
        n * two_to((24 - k) as nat)
    } else {
        let unit = two_to((k - 24) as nat);
        let kept = n / unit;
        let rest = n % unit;
        if 2 * rest > unit || (2 * rest == unit && kept % 2 == 1) {
            kept + 1
        } else {
            kept
        }
    }
}

/// The bits of the single-precision number nearest to an integer, ties to the
/// even one. Rounding up to the next power of two carries into the exponent.
pub open spec fn nearest_bits(n: nat) -> nat {
    if n == 0 {
        0
    } else {
        ((bit_length(n) + 125) * 0x80_0000 + leading_digits(n)) as nat
    }
}

impl F32 {
    /// The biased exponent.
    pub open spec fn exponent(self) -> nat {
        (self.magnitude() / 0x80_0000) as nat
    }

    /// The significand of a normal number: its fraction behind a leading one.
    pub open spec fn significand(self) -> nat {
        (0x80_0000 + self.magnitude() % 0x80_0000) as nat
    }

    /// The magnitude without what is behind the point.
    pub open spec fn whole_part(self) -> nat {
        let e = self.exponent();
        if e < 127 {
            0
        } else if e <= 150 {
            self.significand() / two_to((150 - e) as nat)
        } else {
            self.significand() * two_to((e - 150) as nat)
        }
    }

    /// The number as an index: without what is behind the point, 0 where it is
    /// negative or no number, the largest index where it is larger than that.
    pub open spec fn index(self) -> usize {
        if self.nan() || self.bits >= 0x8000_0000 {
            0
        } else if self.whole_part() > usize::MAX {
            usize::MAX
        } else {
            self.whole_part() as usize
        }
    }
}

proof fn lemma_two_to_positive(k: nat)
    ensures
        two_to(k) >= 1,
    decreases k,
{
    if k > 0 {
        lemma_two_to_positive((k - 1) as nat);
    }
}

proof fn lemma_two_to_adds(a: nat, b: nat)
    ensures
        two_to(a + b) == two_to(a) * two_to(b),
    decreases a,
{
    if a > 0 {
        lemma_two_to_adds((a - 1) as nat, b);
        let rest = two_to((a - 1) as nat);
        let other = two_to(b);
        assert(2 * (rest * other) == (2 * rest) * other) by (nonlinear_arith);
        assert(two_to(a + b) == 2 * two_to((a + b - 1) as nat));
        assert((a + b - 1) as nat == (a - 1) as nat + b);
    } else {
        assert(two_to(0) * two_to(b) == two_to(b)) by (nonlinear_arith)
            requires
                two_to(0) == 1,
        ;
    }
}

proof fn lemma_two_to_values()
    ensures
        two_to(23) == 0x80_0000,
        two_to(24) == 0x100_0000,
        two_to(64) == 0x1_0000_0000_0000_0000,
{
    reveal_with_fuel(two_to, 65);
}

/// A number lies between the powers of two around its length.
proof fn lemma_bit_length(n: nat)
    requires
        n > 0,
    ensures
        bit_length(n) >= 1,
        two_to((bit_length(n) - 1) as nat) <= n < two_to(bit_length(n)),
    decreases n,
{
    if n > 1 {
        lemma_bit_length(n / 2);
    } else {
        assert(bit_length(0) == 0);
        assert(bit_length(1) == 1);
        assert(two_to(0) == 1 && two_to(1) == 2) by {
            reveal_with_fuel(two_to, 2);
        }
    }
}

proof fn lemma_two_to_grows(a: nat, b: nat)
    requires
        a <= b,
    ensures
        two_to(a) <= two_to(b),
    decreases b,
{
    if a < b {
        lemma_two_to_grows(a, (b - 1) as nat);
        lemma_two_to_positive((b - 1) as nat);
    }
}

/// Numbers that fit in 64 bits have at most 64 digits.
proof fn lemma_bit_length_bound(n: nat)
    requires
        n < 0x1_0000_0000_0000_0000,
    ensures
        bit_length(n) <= 64,
{
    if n > 0 {
        lemma_bit_length(n);
        lemma_two_to_values();
        if bit_length(n) > 64 {
            lemma_two_to_grows(64, (bit_length(n) - 1) as nat);
        }
    }
}

/// The leading digits of a number make a significand, or the next power.
proof fn lemma_leading_digits(n: nat)
    requires
        n > 0,
    ensures
        0x80_0000 <= leading_digits(n) <= 0x100_0000,
{
    let k = bit_length(n);
    lemma_bit_length(n);
    lemma_two_to_values();
    if k <= 24 {
        let pad = two_to((24 - k) as nat);
        lemma_two_to_adds((k - 1) as nat, (24 - k) as nat);
        lemma_two_to_adds(k, (24 - k) as nat);
        assert(two_to((k - 1) as nat) * pad <= n * pad) by (nonlinear_arith)
            requires
                two_to((k - 1) as nat) <= n,
        ;
        assert(n * pad <= two_to(k) * pad) by (nonlinear_arith)
            requires
                n <= two_to(k),
        ;
    } else {
        let unit = two_to((k - 24) as nat);
        lemma_two_to_positive((k - 24) as nat);
        lemma_two_to_adds(23, (k - 24) as nat);
        lemma_two_to_adds(24, (k - 24) as nat);
        assert(0x80_0000 <= n / unit) by (nonlinear_arith)
            requires
                0x80_0000 * unit <= n,
                unit > 0,
        ;
        assert(n / unit < 0x100_0000) by (nonlinear_arith)
            requires
                n < 0x100_0000 * unit,
                unit > 0,
        ;
    }
}

fn power_of_two(k: u32) -> (power: u64)
    requires
        k < 64,
    ensures
        power == two_to(k as nat),
        power >= 1,
{
    let mut power: u64 = 1;
    let mut i: u32 = 0;
    while i < k
        invariant
            i <= k < 64,
            power == two_to(i as nat),
            power >= 1,
        decreases k - i,
    {
        proof {
            lemma_two_to_values();
            lemma_two_to_grows((i + 1) as nat, 63);
            assert(two_to(64) == 2 * two_to(63));
        }
        power = power * 2;
        i = i + 1;
    }
    power
}

fn length_of(n: u64) -> (length: u32)
    ensures
        length == bit_length(n as nat),
        length <= 64,
{
    let mut length: u32 = 0;
    let mut rest: u64 = n;
    proof {
        lemma_bit_length_bound(n as nat);
    }
    while rest > 0
        invariant
            length + bit_length(rest as nat) == bit_length(n as nat),
            bit_length(n as nat) <= 64,
        decreases rest,
    {
        rest = rest / 2;
        length = length + 1;
    }
    length
}

impl F32 {
    /// The number as an index: without what is behind the point, 0 where it is
    /// negative or no number, the largest index where it is larger than that.
    pub fn to_index(self) -> (index: usize)
        ensures
            index == self.index(),
    {
        if self.is_nan() || self.bits >= 0x8000_0000 {
            return 0;
        }
        let exponent: u32 = self.bits / 0x80_0000;
        let significand: u32 = 0x80_0000 + self.bits % 0x80_0000;
        if exponent < 127 {
            return 0;
        }
        if exponent <= 150 {
            let unit: u64 = power_of_two(150 - exponent);
            proof {
                assert(significand as nat / unit as nat <= significand) by (nonlinear_arith)
                    requires
                        unit >= 1,
                ;
            }
            return (significand as u64 / unit) as usize;
        }
        let top: u128 = usize::MAX as u128;
        let mut value: u128 = significand as u128;
        let mut left: u32 = exponent - 150;
        proof {
            assert(two_to(0) == 1);
            assert(significand * two_to(0) == significand) by (nonlinear_arith)
                requires
                    two_to(0) == 1,
            ;
        }
        let ghost steps = left as nat;
        while left > 0 && value <= top
            invariant
                left <= steps,
                value == significand * two_to((steps - left) as nat),
                top == usize::MAX,
            decreases left,
        {
            proof {
                let power = two_to((steps - left) as nat);
                assert(2 * (significand * power) == significand * (2 * power)) by (nonlinear_arith);
            }
            value = value * 2;
            left = left - 1;
        }
        proof {
            let power = two_to((steps - left) as nat);
            lemma_two_to_grows((steps - left) as nat, steps);
            assert(significand * power <= significand * two_to(steps)) by (nonlinear_arith)
                requires
                    power <= two_to(steps),
            ;
        }
        if value > top {
            usize::MAX
        } else {
            value as usize
        }
    }

    /// The number nearest to an index, ties to the even one.
    pub fn from_index(n: usize) -> (number: F32)
        ensures
            number.bits == nearest_bits(n as nat),
            !number.nan(),
            number.bits < 0x8000_0000,
    {
        if n == 0 {
            return F32 { bits: 0 };
        }
        let wide: u64 = n as u64;
        let length: u32 = length_of(wide);
        proof {
            lemma_leading_digits(n as nat);
            lemma_bit_length(n as nat);
            lemma_two_to_values();
        }
        let digits: u64 = if length <= 24 {
            let pad: u64 = power_of_two(24 - length);
            wide * pad
        } else {
            let unit: u64 = power_of_two(length - 24);
            let kept: u64 = wide / unit;
            let rest: u64 = wide % unit;
            proof {
                assert(unit == 2 * two_to((length - 25) as nat));
            }
            let half: u64 = unit / 2;
            if rest > half || (rest == half && kept % 2 == 1) {
                kept + 1
            } else {
                kept
            }
        };
        F32 { bits: (length + 125) * 0x80_0000 + digits as u32 }
    }
}

/// Indices up to 2^24 survive the way to a number and back.
pub proof fn law_small_indices_are_exact(n: usize)
    requires
        n <= 0x100_0000,
    ensures
        (F32 { bits: nearest_bits(n as nat) as u32 }).index() == n,
{
    let number = F32 { bits: nearest_bits(n as nat) as u32 };
    if n > 0 {
        let k = bit_length(n as nat);
        lemma_bit_length(n as nat);
        lemma_leading_digits(n as nat);
        lemma_two_to_values();
        if k > 25 {
            lemma_two_to_grows(25, (k - 1) as nat);
            assert(two_to(25) == 2 * two_to(24));
        }
        let digits = leading_digits(n as nat);
        assert(k <= 25);
        assert(nearest_bits(n as nat) == (k + 125) * 0x80_0000 + digits);
        assert(!number.nan());
        if k <= 24 {
            let pad = two_to((24 - k) as nat);
            lemma_two_to_positive((24 - k) as nat);
            lemma_two_to_adds(k, (24 - k) as nat);
            assert(n * pad < two_to(k) * pad) by (nonlinear_arith)
                requires
                    n < two_to(k),
                    pad >= 1,
            ;
            assert(digits < 0x100_0000);
            assert(number.exponent() == k + 126);
            assert(number.significand() == digits);
            assert((n * pad) / (pad as int) == n) by (nonlinear_arith)
                requires
                    pad >= 1,
            ;
            assert((150 - number.exponent()) as nat == (24 - k) as nat);
            assert(number.whole_part() == n);
        } else {
            assert(n == 0x100_0000) by {
                lemma_two_to_grows(24, (k - 1) as nat);
            }
            assert(k == 25);
            assert(two_to(1) == 2) by {
                reveal_with_fuel(two_to, 2);
            }
            assert(digits == 0x80_0000);
            assert(number.exponent() == 151);
            assert(number.significand() == 0x80_0000);
            assert(number.whole_part() == 0x80_0000 * two_to(1));
            assert(number.whole_part() == n);
        }
    }
}

/// A longer number is larger.
proof fn lemma_bit_length_grows(a: nat, b: nat)
    requires
        a <= b,
    ensures
        bit_length(a) <= bit_length(b),
    decreases b,
{
    if a > 0 {
        lemma_bit_length_grows(a / 2, b / 2);
    }
}

/// Among numbers of one length, the leading digits of a larger one are no
/// smaller.
proof fn lemma_leading_digits_grow(a: nat, b: nat)
    requires
        a <= b,
        bit_length(a) == bit_length(b),
    ensures
        leading_digits(a) <= leading_digits(b),
{
    let k = bit_length(a);
    if k <= 24 {
        let pad = two_to((24 - k) as nat);
        assert(a * pad <= b * pad) by (nonlinear_arith)
            requires
                a <= b,
        ;
    } else {
        let unit = two_to((k - 24) as nat);
        lemma_two_to_positive((k - 24) as nat);
        vstd::arithmetic::div_mod::lemma_div_is_ordered(a as int, b as int, unit as int);
        vstd::arithmetic::div_mod::lemma_fundamental_div_mod(a as int, unit as int);
        vstd::arithmetic::div_mod::lemma_fundamental_div_mod(b as int, unit as int);
        let kept = a / unit;
        assert(kept == b / unit ==> unit * kept == unit * (b / unit));
    }
}

/// Larger integers have nearest numbers that are no smaller, and every index
/// has one.
pub proof fn law_numbers_keep_their_order(a: usize, b: usize)
    requires
        a <= b,
    ensures
        (F32 { bits: nearest_bits(a as nat) as u32 }).at_most(F32 { bits: nearest_bits(b as nat) as u32 }),
{
    lemma_bit_length_grows(a as nat, b as nat);
    lemma_bit_length_bound(a as nat);
    lemma_bit_length_bound(b as nat);
    if a > 0 {
        lemma_leading_digits(a as nat);
    }
    if b > 0 {
        lemma_leading_digits(b as nat);
    }
    if bit_length(a as nat) == bit_length(b as nat) {
        lemma_leading_digits_grow(a as nat, b as nat);
    }
}

proof fn lemma_two_to_is_pow2(k: nat)
    ensures
        two_to(k) == pow2(k),
    decreases k,
{
    if k > 0 {
        lemma_two_to_is_pow2((k - 1) as nat);
        vstd::arithmetic::power2::lemma_pow2_unfold(k);
    } else {
        vstd::arithmetic::power2::lemma2_to64();
    }
}

/// Turning a number into an index cuts off what is behind the point: the number
/// is `sig` times two to the power of `e - 150`, where `e` stands above its low
/// 23 bits and `sig` is the rest with a leading one, and the index is the whole
/// number at or just below it. What lies below 1, negative numbers among it, and
/// what is no number give 0; what is too large gives the largest index.
pub proof fn law_index_cuts_off(x: F32)
    ensures
        x.nan() ==> x.index() == 0,
        x.bits >= 0x8000_0000 || x.bits < 0x3f80_0000 ==> x.index() == 0,
        0x3f80_0000 <= x.bits < 0x4b80_0000 ==> {
            let e = x.bits as int / 0x80_0000;
            let sig = 0x80_0000 + x.bits as int % 0x80_0000;
            let unit = pow2((150 - e) as nat);
            x.index() * unit <= sig < (x.index() + 1) * unit
        },
        0x4b80_0000 <= x.bits <= 0x7f80_0000 ==> {
            let e = x.bits as int / 0x80_0000;
            let sig = 0x80_0000 + x.bits as int % 0x80_0000;
            let value = sig * pow2((e - 150) as nat);
            x.index() == if value <= usize::MAX {
                value
            } else {
                usize::MAX as int
            }
        },
{
    if 0x3f80_0000 <= x.bits < 0x4b80_0000 {
        let e = x.bits as int / 0x80_0000;
        let sig = 0x80_0000 + x.bits as int % 0x80_0000;
        lemma_two_to_is_pow2((150 - e) as nat);
        lemma_two_to_positive((150 - e) as nat);
        let unit = pow2((150 - e) as nat) as int;
        let whole = sig / unit;
        assert(whole * unit <= sig < (whole + 1) * unit && 0 <= whole <= sig) by (nonlinear_arith)
            requires
                unit >= 1,
                sig >= 0,
                whole == sig / unit,
        ;
        assert(x.whole_part() == whole);
    } else if 0x4b80_0000 <= x.bits <= 0x7f80_0000 {
        let e = x.bits as int / 0x80_0000;
        lemma_two_to_is_pow2((e - 150) as nat);
        if e == 150 {
            vstd::arithmetic::power2::lemma2_to64();
        }
    }
}

/// A large index becomes the nearest number: it lies at most half a unit of the
/// last of 24 digits away, and where two numbers are as near it is the one whose
/// last digit is even.
pub proof fn law_number_is_nearest(n: usize, k: nat)
    requires
        k > 24,
        pow2((k - 1) as nat) <= n < pow2(k),
    ensures
        ({
            let bits = nearest_bits(n as nat) as int;
            let e = bits / 0x80_0000;
            let sig = 0x80_0000 + bits % 0x80_0000;
            let unit = pow2((k - 24) as nat) as int;
            let value = sig * pow2((e - 150) as nat);
            &&& bits < 0x7f80_0000
            &&& e >= 151
            &&& -unit <= 2 * (value - n) <= unit
            &&& 2 * (value - n) == unit || 2 * (n - value) == unit ==> value % (2 * unit) == 0
        }),
{
    let length = bit_length(n as nat);
    lemma_two_to_is_pow2((k - 1) as nat);
    lemma_two_to_positive((k - 1) as nat);
    lemma_bit_length(n as nat);
    lemma_bit_length_bound(n as nat);
    lemma_two_to_is_pow2(k);
    if length < k {
        lemma_two_to_grows(length, (k - 1) as nat);
    }
    if k < length {
        lemma_two_to_grows(k, (length - 1) as nat);
    }
    assert(length == k);
    lemma_leading_digits(n as nat);
    let digits = leading_digits(n as nat) as int;
    let bits = nearest_bits(n as nat) as int;
    let unit = two_to((k - 24) as nat) as int;
    lemma_two_to_is_pow2((k - 24) as nat);
    lemma_two_to_is_pow2((k - 23) as nat);
    lemma_two_to_positive((k - 24) as nat);
    assert(two_to((k - 23) as nat) == 2 * two_to((k - 24) as nat));
    let whole = n as int;
    let kept = whole / unit;
    let rest = whole % unit;
    assert(whole == kept * unit + rest && 0 <= rest < unit) by (nonlinear_arith)
        requires
            unit >= 1,
            kept == whole / unit,
            rest == whole % unit,
    ;
    let e = bits / 0x80_0000;
    let sig = 0x80_0000 + bits % 0x80_0000;
    let value = sig * pow2((e - 150) as nat);
    assert(bits == (k + 125) * 0x80_0000 + digits);
    if digits == 0x100_0000 {
        assert(e == k + 127 && sig == 0x80_0000);
        assert((e - 150) as nat == (k - 23) as nat);
        assert(value == 0x80_0000 * (2 * unit));
        assert(0x80_0000 * (2 * unit) == 0x100_0000 * unit);
    } else {
        assert(e == k + 126 && sig == digits);
        assert((e - 150) as nat == (k - 24) as nat);
    }
    assert(value == digits * unit);
    assert((kept + 1) * unit == kept * unit + unit) by (nonlinear_arith);
    if 2 * (value - whole) == unit || 2 * (whole - value) == unit {
        assert(digits % 2 == 0);
        let half = digits / 2;
        assert(digits * unit == half * (2 * unit)) by (nonlinear_arith)
            requires
                digits == 2 * half,
        ;
        vstd::arithmetic::div_mod::lemma_mod_multiples_basic(half, 2 * unit);
    }
}

} // verus!
