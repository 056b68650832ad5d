//! Seconds as the doubles of IEEE 754 count them, in whole numbers.
//!
//! Every double is a whole number of units of two to the minus 1074, so a number
//! of seconds is stated as an integer, and a difference is rounded as that of
//! doubles is.

use vstd::arithmetic::power2::*;
use vstd::prelude::*;

use crate::geometry;

verus! {

/// The whole number nearest to `num / den`, the even one of two.
pub open spec fn half_even(num: nat, den: nat) -> nat {
    let down = num / den;
    let rest = num % den;
    if 2 * rest < den || (2 * rest == den && down % 2 == 0) {
        down
    } else {
        down + 1
    }
}

/// The smallest power of two, from `unit` on, in whose multiples `n` is
/// written with 53 bits.
pub open spec fn unit_of(n: nat, unit: nat) -> nat
    decreases n - unit,
{
    if unit == 0 || n < unit * 0x20_0000_0000_0000 {
        unit
    } else {
        unit_of(n, 2 * unit)
    }
}

/// `n` as a number of 53 significant bits.
pub open spec fn to_double(n: nat) -> nat {
    half_even(n, unit_of(n, 1)) * unit_of(n, 1)
}

/// The difference of two doubles: the double that is nearest to it.
pub open spec fn difference(a: int, b: int) -> int {
    if a >= b {
        to_double((a - b) as nat) as int
    } else {
        -(to_double((b - a) as nat) as int)
    }
}

/// The units of one second.
pub open spec fn one_second() -> int {
    pow2(1074) as int
}

/// The whole seconds in `units`; none in a negative number.
pub open spec fn whole_secs(units: int) -> int {
    if units <= 0 {
        0
    } else {
        units / one_second()
    }
}

/// Whole seconds are counted from zero on.
pub proof fn lemma_whole_secs(units: int)
    ensures
        whole_secs(units) >= 0,
{
    lemma_pow2_pos(1074);
    if units > 0 {
        vstd::arithmetic::div_mod::lemma_div_pos_is_pos(units, one_second());
    }
}

/// The exponent in the bits of a double; the largest one marks what is no number.
pub open spec fn exponent(bits: u64) -> int {
    bits as int / 0x10_0000_0000_0000 % 2048
}

/// The units that the bits of a double stand for.
pub open spec fn units_of_bits(bits: u64) -> int {
    let fraction = bits % 0x10_0000_0000_0000;
    let size = if exponent(bits) == 0 {
        fraction as int
    } else {
        (0x10_0000_0000_0000 + fraction) * pow2((exponent(bits) - 1) as nat)
    };
    if bits >= 0x8000_0000_0000_0000 {
        -size
    } else {
        size
    }
}

/// A number of seconds: since 1970 for a point in time, else of a span.
#[derive(Clone, Copy, Debug, PartialEq, Eq)]
pub struct Seconds {
    negative: bool,
    mant: u64,
    shift: u16,
}

impl View for Seconds {
    type V = int;

    closed spec fn view(&self) -> int {
        let size = self.mant * pow2(self.shift as nat);
        if self.negative {
            -size
        } else {
            size
        }
    }
}

/// The nearest whole number to `num / den`, the even one of two.
pub fn round_half_even(num: u128, den: u128) -> (out: u128)
    requires
        0 < den,
        num <= 0x1_0000_0000_0000_0000_0000_0000_0000,
        den <= 0x1_0000_0000_0000_0000_0000_0000_0000,
    ensures
        out == half_even(num as nat, den as nat),
        num / den <= out <= num / den + 1,
        out <= num + 1,
{
    let down: u128 = num / den;
    let rest: u128 = num % den;
    assert(down <= num) by (nonlinear_arith)
        requires
            down == num / den,
            den > 0,
            num >= 0,
    ;
    if 2 * rest < den || (2 * rest == den && down % 2 == 0) {
        down
    } else {
        down + 1
    }
}

proof fn lemma_unit_twice(n: nat, unit: nat)
    requires
        unit > 0,
    ensures
        unit_of(2 * n, 2 * unit) == 2 * unit_of(n, unit),
        unit_of(n, unit) > 0,
    decreases n - unit,
{
    if n >= unit * 0x20_0000_0000_0000 {
        lemma_unit_twice(n, 2 * unit);
    }
}

proof fn lemma_half_even_twice(num: nat, den: nat)
    requires
        den > 0,
    ensures
        half_even(2 * num, 2 * den) == half_even(num, den),
{
    let q = num / den;
    let r = num % den;
    assert(num == den * q + r) by (nonlinear_arith)
        requires
            q == num / den,
            r == num % den,
            den > 0,
    ;
    assert((2 * num) / (2 * den) == q && (2 * num) % (2 * den) == 2 * r) by (nonlinear_arith)
        requires
            num == den * q + r,
            0 <= r < den,
    {
        assert(2 * num == (2 * den) * q + 2 * r);
        vstd::arithmetic::div_mod::lemma_fundamental_div_mod_converse(
            2 * num as int,
            2 * den as int,
            q as int,
            2 * r as int,
        );
    }
}

proof fn lemma_double_twice(n: nat)
    ensures
        to_double(2 * n) == 2 * to_double(n),
{
    let unit = unit_of(n, 1);
    lemma_unit_twice(n, 1);
    if 2 * n < 0x20_0000_0000_0000 {
        assert(unit_of(2 * n, 1) == 1 && unit == 1);
    } else {
        assert(unit_of(2 * n, 1) == unit_of(2 * n, 2));
        lemma_half_even_twice(n, unit);
        assert(half_even(n, unit) * (2 * unit) == 2 * (half_even(n, unit) * unit))
            by (nonlinear_arith);
    }
}

proof fn lemma_double_scaled(n: nat, s: nat)
    ensures
        to_double(n * pow2(s)) == to_double(n) * pow2(s),
    decreases s,
{
    if s == 0 {
        lemma2_to64();
        assert(n * pow2(0) == n && to_double(n) * pow2(0) == to_double(n)) by (nonlinear_arith)
            requires
                pow2(0) == 1,
        ;
    } else {
        let half = pow2((s - 1) as nat);
        lemma_pow2_unfold(s);
        lemma_double_scaled(n, (s - 1) as nat);
        lemma_double_twice(n * half);
        assert(n * pow2(s) == 2 * (n * half) && to_double(n) * pow2(s) == 2 * (to_double(n) * half))
            by (nonlinear_arith)
            requires
                pow2(s) == 2 * half,
        ;
    }
}

proof fn lemma_unit_is(n: nat, k: nat, j: nat)
    requires
        j <= k,
        n < pow2(k) * 0x20_0000_0000_0000,
        j == k || n >= pow2(k) * 0x10_0000_0000_0000,
    ensures
        unit_of(n, pow2(j)) == pow2(k),
    decreases k - j,
{
    lemma_pow2_pos(j);
    if j < k {
        lemma_pow2_unfold(j + 1);
        if j + 1 < k {
            lemma_pow2_strictly_increases(j + 1, k);
        }
        lemma_unit_is(n, k, j + 1);
    }
}

/// Taking away far less than the last bit of a double leaves it as it is.
proof fn lemma_far_apart(m: nat, d: nat, small: nat)
    requires
        0x10_0000_0000_0000 <= m < 0x20_0000_0000_0000,
        d >= 59,
        0 < small < 0x20_0000_0000_0000,
    ensures
        small < m * pow2(d),
        to_double((m * pow2(d) - small) as nat) == m * pow2(d),
{
    lemma2_to64();
    lemma2_to64_rest();
    let unit = pow2(d);
    let half = pow2((d - 1) as nat);
    lemma_pow2_unfold(d);
    if d > 59 {
        lemma_pow2_strictly_increases(59, d);
    }
    assert(half >= 0x400_0000_0000_0000);
    assert(m * unit >= 0x10_0000_0000_0000 * unit) by (nonlinear_arith)
        requires
            m >= 0x10_0000_0000_0000,
    ;
    let n = (m * unit - small) as nat;
    if m > 0x10_0000_0000_0000 {
        assert(n >= unit * 0x10_0000_0000_0000 && n < unit * 0x20_0000_0000_0000)
            by (nonlinear_arith)
            requires
                n == m * unit - small,
                0x10_0000_0000_0001 <= m < 0x20_0000_0000_0000,
                0 < small < unit,
        ;
        lemma_unit_is(n, d, 0);
        assert(n == unit * (m - 1) + (unit - small)) by (nonlinear_arith)
            requires
                n == m * unit - small,
        ;
        vstd::arithmetic::div_mod::lemma_fundamental_div_mod_converse(
            n as int,
            unit as int,
            m - 1,
            unit - small,
        );
        assert(half_even(n, unit) == m);
        assert(to_double(n) == half_even(n, unit) * unit);
    } else {
        assert(n >= half * 0x10_0000_0000_0000 && n < half * 0x20_0000_0000_0000);
        lemma_unit_is(n, (d - 1) as nat, 0);
        assert(n == half * 0x1f_ffff_ffff_ffff + (half - small));
        vstd::arithmetic::div_mod::lemma_fundamental_div_mod_converse(
            n as int,
            half as int,
            0x1f_ffff_ffff_ffff,
            half - small,
        );
        assert(half_even(n, half) == 0x20_0000_0000_0000);
        assert(to_double(n) == half_even(n, half) * half);
        assert(to_double(n) == 0x20_0000_0000_0000 * half);
        assert(m * unit == 0x10_0000_0000_0000 * unit);
    }
}

proof fn lemma_larger(m: nat, s: nat, small: nat, t: nat)
    requires
        m >= 0x10_0000_0000_0000,
        small < 0x20_0000_0000_0000,
        s > t,
    ensures
        m * pow2(s) > small * pow2(t),
{
    lemma_pow2_pos(t);
    lemma_pow2_unfold(t + 1);
    if s > t + 1 {
        lemma_pow2_strictly_increases(t + 1, s);
    }
    assert(m * pow2(s) > small * pow2(t)) by (nonlinear_arith)
        requires
            m >= 0x10_0000_0000_0000,
            small < 0x20_0000_0000_0000,
            pow2(s) >= 2 * pow2(t),
            pow2(t) > 0,
    ;
}

impl Seconds {
    /// The bits below the point are used up before the number is shifted.
    #[verifier::type_invariant]
    spec fn is_double(self) -> bool {
        &&& self.mant < 0x20_0000_0000_0000
        &&& self.shift > 0 ==> self.mant >= 0x10_0000_0000_0000
        &&& self.shift <= 2045
    }

    /// No time at all.
    pub fn zero() -> (out: Seconds)
        ensures
            out@ == 0,
    {
        let out = Seconds { negative: false, mant: 0, shift: 0 };
        assert(0 * pow2(0) == 0);
        out
    }

    /// The number that the bits of a double stand for, if they stand for one.
    pub fn from_bits(bits: u64) -> (out: Option<Seconds>)
        ensures
            out is Some <==> exponent(bits) < 2047,
            out matches Some(secs) ==> secs@ == units_of_bits(bits),
    {
        let e: u64 = bits / 0x10_0000_0000_0000 % 2048;
        let fraction: u64 = bits % 0x10_0000_0000_0000;
        let negative: bool = bits >= 0x8000_0000_0000_0000;
        proof {
            lemma2_to64();
        }
        if e == 2047 {
            None
        } else if e == 0 {
            assert(fraction * pow2(0) == fraction) by (nonlinear_arith)
                requires
                    pow2(0) == 1,
            ;
            Some(Seconds { negative, mant: fraction, shift: 0 })
        } else {
            Some(Seconds { negative, mant: 0x10_0000_0000_0000 + fraction, shift: (e - 1) as u16 })
        }
    }

    /// Whether the number is positive.
    pub fn is_positive(self) -> (out: bool)
        ensures
            out == (self@ > 0),
    {
        proof {
            lemma_pow2_pos(self.shift as nat);
            lemma_sign(self.mant as nat, pow2(self.shift as nat));
        }
        !self.negative && self.mant > 0
    }

    fn is_larger(self, other: Seconds) -> (out: bool)
        ensures
            out == (self.mant * pow2(self.shift as nat) > other.mant * pow2(other.shift as nat)),
    {
        proof {
            use_type_invariant(&self);
            use_type_invariant(&other);
            lemma_pow2_pos(self.shift as nat);
            if self.shift > other.shift {
                lemma_larger(
                    self.mant as nat,
                    self.shift as nat,
                    other.mant as nat,
                    other.shift as nat,
                );
            } else if self.shift < other.shift {
                lemma_larger(
                    other.mant as nat,
                    other.shift as nat,
                    self.mant as nat,
                    self.shift as nat,
                );
            } else {
                let unit = pow2(self.shift as nat);
                let a = self.mant as int;
                let b = other.mant as int;
                assert(a > b <==> a * unit > b * unit) by (nonlinear_arith)
                    requires
                        unit > 0,
                ;
            }
        }
        self.shift > other.shift || (self.shift == other.shift && self.mant > other.mant)
    }

    /// Whether the number is larger than `other`.
    pub fn exceeds(self, other: Seconds) -> (out: bool)
        ensures
            out == (self@ > other@),
    {
        proof {
            lemma_pow2_pos(self.shift as nat);
            lemma_pow2_pos(other.shift as nat);
            lemma_sign(self.mant as nat, pow2(self.shift as nat));
            lemma_sign(other.mant as nat, pow2(other.shift as nat));
        }
        if self.negative && self.mant > 0 {
            other.negative && other.is_larger(self)
        } else if other.negative && other.mant > 0 {
            true
        } else {
            self.is_larger(other)
        }
    }

    /// The whole seconds of the number: none of a negative one, and no more than
    /// fit.
    pub fn whole(self) -> (out: u64)
        ensures
            out == geometry::min(whole_secs(self@), u64::MAX as int),
    {
        proof {
            use_type_invariant(&self);
            lemma_pow2_pos(self.shift as nat);
            lemma_pow2_pos(1074);
            lemma_sign(self.mant as nat, pow2(self.shift as nat));
        }
        if self.negative || self.mant == 0 {
            return 0;
        }
        if self.shift >= 1074 {
            let up: u16 = self.shift - 1074;
            proof {
                lemma_shifted_up(self.mant as nat, self.shift as nat, up as nat);
            }
            if up >= 12 {
                proof {
                    lemma_many(self.mant as nat, up as nat);
                }
                return u64::MAX;
            }
            let out: u128 = times_pow2(self.mant, up);
            if out <= u64::MAX as u128 {
                out as u64
            } else {
                u64::MAX
            }
        } else {
            let down: u16 = 1074 - self.shift;
            proof {
                lemma_shifted_down(self.mant as nat, self.shift as nat, down as nat);
            }
            if down >= 53 {
                proof {
                    lemma_few(self.mant as nat, down as nat);
                }
                return 0;
            }
            let unit: u128 = times_pow2(1, down);
            proof {
                lemma_pow2_pos(down as nat);
            }
            assert(unit == pow2(down as nat)) by (nonlinear_arith)
                requires
                    unit == 1 * pow2(down as nat),
            ;
            (self.mant as u128 / unit) as u64
        }
    }

    /// The difference to a smaller number that is not negative, as that of doubles
    /// is rounded.
    pub fn minus(self, other: Seconds) -> (out: Seconds)
        requires
            0 <= other@ < self@,
        ensures
            out@ == difference(self@, other@),
    {
        let ghost x = self.mant * pow2(self.shift as nat);
        let ghost y = other.mant * pow2(other.shift as nat);
        proof {
            use_type_invariant(&self);
            use_type_invariant(&other);
            lemma_pow2_pos(self.shift as nat);
            lemma_pow2_pos(other.shift as nat);
            lemma_sign(self.mant as nat, pow2(self.shift as nat));
            lemma_sign(other.mant as nat, pow2(other.shift as nat));
            assert(self@ == x && other@ == y);
            if self.shift < other.shift {
                lemma_larger(
                    other.mant as nat,
                    other.shift as nat,
                    self.mant as nat,
                    self.shift as nat,
                );
            }
        }
        let d: u16 = self.shift - other.shift;
        let ghost low = pow2(other.shift as nat);
        let ghost gap = (self.mant * pow2(d as nat) - other.mant) as nat;
        proof {
            lemma_pow2_adds(d as nat, other.shift as nat);
            lemma_gap(self.mant as nat, pow2(d as nat), other.mant as nat, low);
            lemma_double_scaled(gap, other.shift as nat);
            assert(to_double((x - y) as nat) == to_double(gap) * low);
        }
        if other.mant == 0 {
            proof {
                lemma_double_scaled(self.mant as nat, self.shift as nat);
                lemma_short(self.mant as nat);
            }
            return self;
        }
        if d >= 59 {
            proof {
                lemma_far_apart(self.mant as nat, d as nat, other.mant as nat);
                assert((self.mant * pow2(d as nat)) * low == x) by (nonlinear_arith)
                    requires
                        x == self.mant * pow2(self.shift as nat),
                        pow2(self.shift as nat) == pow2(d as nat) * low,
                ;
            }
            return self;
        }
        let n: u128 = times_pow2(self.mant, d) - other.mant as u128;
        proof {
            let m = self.mant as int;
            let high = pow2(d as nat) as int;
            lemma_pow2_pos(d as nat);
            assert(n == gap);
            assert(m * high <= 0x20_0000_0000_0000 * high) by (nonlinear_arith)
                requires
                    m < 0x20_0000_0000_0000,
                    high > 0,
            ;
        }
        let (unit, k): (u128, u16) = unit_for(n, d);
        let q: u128 = round_half_even(n, unit);
        proof {
            lemma_rounded_within(n as nat, unit as nat, self.mant as nat, k as nat, d as nat);
        }
        let mut mant: u64 = q as u64;
        let mut shift: u16 = other.shift + k;
        proof {
            lemma_pow2_adds(k as nat, other.shift as nat);
            assert(q * pow2(shift as nat) == (q * unit) * low) by (nonlinear_arith)
                requires
                    pow2(shift as nat) == unit * low,
            ;
            assert(to_double(gap) == q * unit);
        }
        let ghost value = to_double(gap) * low;
        assert(mant * pow2(shift as nat) == value);
        if mant == 0x20_0000_0000_0000 {
            let ghost here = pow2(shift as nat);
            mant = 0x10_0000_0000_0000;
            shift = shift + 1;
            proof {
                lemma_pow2_unfold(shift as nat);
                assert(0x10_0000_0000_0000 * (2 * here) == 0x20_0000_0000_0000 * here)
                    by (nonlinear_arith);
            }
            assert(mant * pow2(shift as nat) == value);
        }
        while mant < 0x10_0000_0000_0000 && shift > 0
            invariant
                mant < 0x20_0000_0000_0000,
                shift <= 2045,
                mant * pow2(shift as nat) == value,
            decreases shift,
        {
            proof {
                lemma_pow2_unfold(shift as nat);
                let half = pow2((shift - 1) as nat);
                assert((2 * mant) * half == mant * (2 * half)) by (nonlinear_arith);
            }
            mant = 2 * mant;
            shift = shift - 1;
        }
        Seconds { negative: false, mant, shift }
    }
}

/// `n` times two to the `up`.
fn times_pow2(n: u64, up: u16) -> (out: u128)
    requires
        n < 0x20_0000_0000_0000,
        up <= 58,
    ensures
        out == n * pow2(up as nat),
        out < 0x8000_0000_0000_0000_0000_0000_0000,
{
    proof {
        lemma2_to64();
        lemma2_to64_rest();
        assert(n * pow2(0) == n) by (nonlinear_arith)
            requires
                pow2(0) == 1,
        ;
    }
    let mut out: u128 = n as u128;
    let mut i: u16 = 0;
    while i < up
        invariant
            n < 0x20_0000_0000_0000,
            pow2(58) == 0x400_0000_0000_0000,
            i <= up <= 58,
            out == n * pow2(i as nat),
        decreases up - i,
    {
        proof {
            lemma_pow2_unfold((i + 1) as nat);
            let here = pow2(i as nat);
            lemma_pow2_strictly_increases(i as nat, 58);
            assert(n * (2 * here) == 2 * (n * here)) by (nonlinear_arith);
            assert(n * here < 0x20_0000_0000_0000 * 0x400_0000_0000_0000) by (nonlinear_arith)
                requires
                    n < 0x20_0000_0000_0000,
                    here < 0x400_0000_0000_0000,
            ;
        }
        out = 2 * out;
        i = i + 1;
    }
    proof {
        if up < 58 {
            lemma_pow2_strictly_increases(up as nat, 58);
        }
        let here = pow2(up as nat);
        assert(n * here < 0x20_0000_0000_0000 * 0x400_0000_0000_0000) by (nonlinear_arith)
            requires
                n < 0x20_0000_0000_0000,
                0 <= here <= 0x400_0000_0000_0000,
        ;
    }
    out
}

/// The power of two in whose multiples `n` is written with 53 bits, and its
/// exponent.
fn unit_for(n: u128, d: u16) -> (out: (u128, u16))
    requires
        d <= 58,
        n < 0x20_0000_0000_0000 * pow2(d as nat),
    ensures
        out.0 == unit_of(n as nat, 1),
        out.0 == pow2(out.1 as nat),
        1 <= out.0 <= 0x400_0000_0000_0000,
        n < out.0 * 0x20_0000_0000_0000,
        out.1 == 0 || n >= out.0 * 0x10_0000_0000_0000,
        out.1 <= d,
{
    proof {
        lemma2_to64();
        lemma2_to64_rest();
    }
    let mut unit: u128 = 1;
    let mut k: u16 = 0;
    while n >= unit * 0x20_0000_0000_0000
        invariant
            d <= 58,
            n < 0x20_0000_0000_0000 * pow2(d as nat),
            pow2(58) == 0x400_0000_0000_0000,
            1 <= unit <= 0x400_0000_0000_0000,
            unit == pow2(k as nat),
            k <= d,
            k == 0 || n >= unit * 0x10_0000_0000_0000,
            unit_of(n as nat, 1) == unit_of(n as nat, unit as nat),
        decreases d - k,
    {
        proof {
            if k == d {
                assert(false);
            }
            lemma_pow2_unfold((k + 1) as nat);
            if k + 1 < 58 {
                lemma_pow2_strictly_increases((k + 1) as nat, 58);
            }
        }
        unit = 2 * unit;
        k = k + 1;
    }
    (unit, k)
}

proof fn lemma_sign(m: nat, unit: nat)
    requires
        unit > 0,
    ensures
        m == 0 ==> m * unit == 0,
        m > 0 ==> m * unit > 0,
{
    assert((m == 0 ==> m * unit == 0) && (m > 0 ==> m * unit > 0)) by (nonlinear_arith)
        requires
            unit > 0,
    ;
}

proof fn lemma_gap(m: nat, high: nat, small: nat, low: nat)
    requires
        low > 0,
        small * low < m * (high * low),
    ensures
        small < m * high,
        (m * high - small) * low == m * (high * low) - small * low,
{
    assert(m * (high * low) == (m * high) * low) by (nonlinear_arith);
    let p = m * high;
    assert(small < p && (p - small) * low == p * low - small * low) by (nonlinear_arith)
        requires
            low > 0,
            small * low < p * low,
    ;
}

/// A number of up to 53 bits is a double.
/// A number of 53 bits is a double as it is.
pub proof fn lemma_short(n: nat)
    requires
        n < 0x20_0000_0000_0000,
    ensures
        to_double(n) == n,
{
    assert(unit_of(n, 1) == 1);
    assert(half_even(n, 1) == n);
}

/// A number below `m` times two to the `d` is rounded to one that `m` leaves room for.
proof fn lemma_rounded_within(n: nat, unit: nat, m: nat, k: nat, d: nat)
    requires
        unit == pow2(k),
        k <= d,
        n < m * pow2(d),
        n < unit * 0x20_0000_0000_0000,
        m < 0x20_0000_0000_0000,
    ensures
        half_even(n, unit) <= 0x20_0000_0000_0000,
        half_even(n, unit) == 0x20_0000_0000_0000 ==> k < d,
{
    lemma_pow2_pos(k);
    let down = n / unit;
    assert(down < 0x20_0000_0000_0000) by (nonlinear_arith)
        requires
            down == n / unit,
            n < unit * 0x20_0000_0000_0000,
            unit > 0,
    ;
    if k == d {
        assert(down < m) by (nonlinear_arith)
            requires
                down == n / unit,
                n < m * unit,
                unit > 0,
        ;
    }
}

proof fn lemma_shifted_up(m: nat, s: nat, up: nat)
    requires
        s == 1074 + up,
    ensures
        m * pow2(s) / pow2(1074) == m * pow2(up),
{
    lemma_pow2_adds(1074, up);
    lemma_pow2_pos(1074);
    let unit = pow2(1074);
    let high = pow2(up);
    assert(m * (unit * high) == (m * high) * unit) by (nonlinear_arith);
    vstd::arithmetic::div_mod::lemma_div_by_multiple((m * high) as int, unit as int);
}

proof fn lemma_shifted_down(m: nat, s: nat, down: nat)
    requires
        s + down == 1074,
    ensures
        m * pow2(s) / pow2(1074) == m / pow2(down),
{
    lemma_pow2_adds(down, s);
    lemma_pow2_pos(s);
    lemma_pow2_pos(down);
    let low = pow2(s);
    let unit = pow2(down);
    vstd::arithmetic::div_mod::lemma_div_denominator((m * low) as int, low as int, unit as int);
    vstd::arithmetic::div_mod::lemma_div_by_multiple(m as int, low as int);
    assert(low * unit == unit * low) by (nonlinear_arith);
}

proof fn lemma_many(m: nat, up: nat)
    requires
        m >= 0x10_0000_0000_0000,
        up >= 12,
    ensures
        m * pow2(up) > u64::MAX,
{
    lemma2_to64();
    if up > 12 {
        lemma_pow2_strictly_increases(12, up);
    }
    assert(m * pow2(up) >= 0x10_0000_0000_0000 * 0x1000) by (nonlinear_arith)
        requires
            m >= 0x10_0000_0000_0000,
            pow2(up) >= 0x1000,
    ;
}

proof fn lemma_few(m: nat, down: nat)
    requires
        m < 0x20_0000_0000_0000,
        down >= 53,
    ensures
        m / pow2(down) == 0,
{
    lemma2_to64();
    lemma2_to64_rest();
    if down > 53 {
        lemma_pow2_strictly_increases(53, down);
    }
    vstd::arithmetic::div_mod::lemma_basic_div(m as int, pow2(down) as int);
}

/// A difference turns its sign with its sides, and is none of a number to itself.
pub proof fn law_differences_turn_with_their_sides(a: int, b: int)
    ensures
        difference(a, b) == -difference(b, a),
        a >= b ==> difference(a, b) >= 0,
        difference(a, a) == 0,
{
    lemma_short(0);
}

/// A difference that 53 bits hold, wherever they stand, is exact.
pub proof fn law_short_differences_are_exact(a: int, b: int, n: nat, s: nat)
    requires
        a - b == n * pow2(s),
        n < 0x20_0000_0000_0000,
    ensures
        difference(a, b) == a - b,
{
    lemma_pow2_pos(s);
    assert(n * pow2(s) >= 0) by (nonlinear_arith)
        requires
            pow2(s) > 0,
    ;
    lemma_double_scaled(n, s);
    lemma_short(n);
}

/// Rounding goes to the nearest whole number, and to the even one of two that
/// are as near.
pub proof fn law_rounding_goes_to_the_nearest(num: nat, den: nat)
    requires
        den > 0,
    ensures
        2 * (half_even(num, den) * den - num) <= den,
        2 * (num - half_even(num, den) * den) <= den,
        2 * (half_even(num, den) * den - num) == den || 2 * (num - half_even(num, den) * den) == den
            ==> half_even(num, den) % 2 == 0,
{
    let down = num / den;
    let rest = num % den;
    vstd::arithmetic::div_mod::lemma_fundamental_div_mod(num as int, den as int);
    assert(den * down == down * den) by (nonlinear_arith);
    assert((down + 1) * den == down * den + den) by (nonlinear_arith);
    if down % 2 == 1 {
        assert((down + 1) % 2 == 0);
    }
}

/// A number of whole seconds and a part of one counts as the whole ones; a
/// number below zero counts as none.
pub proof fn law_whole_seconds_leave_out_the_rest(secs: int, rest: int)
    requires
        0 <= rest < one_second(),
    ensures
        secs >= 0 ==> whole_secs(secs * one_second() + rest) == secs,
        secs < 0 ==> whole_secs(secs * one_second() + rest) == 0,
{
    lemma_pow2_pos(1074);
    let one = one_second();
    if secs >= 0 {
        vstd::arithmetic::div_mod::lemma_fundamental_div_mod_converse(
            secs * one + rest,
            one,
            secs,
            rest,
        );
        if secs * one + rest <= 0 {
            assert(secs == 0) by (nonlinear_arith)
                requires
                    secs * one + rest <= 0,
                    secs >= 0,
                    one > 0,
                    rest >= 0,
            ;
        }
    } else {
        assert(secs * one + rest < 0) by (nonlinear_arith)
            requires
                secs <= -1,
                rest < one,
                one > 0,
        ;
    }
}

} // verus!
