//! Single-precision numbers carried by their IEEE 754 bit patterns.
//!
//! The library compares, stores and moves measured quantities; it never adds or multiplies
//! them. A bit pattern is all that needs: order, sign and finiteness of a binary32 number can
//! be read off its 32 bits.
use vstd::arithmetic::div_mod::{
    lemma_div_is_ordered, lemma_fundamental_div_mod, lemma_mod_division_less_than_divisor,
};
use vstd::arithmetic::power2::{lemma2_to64, lemma_pow2_pos, lemma_pow2_strictly_increases, pow2};
use vstd::prelude::*;

verus! {

/// Bits of positive infinity: every finite number has a smaller magnitude, every NaN a larger
/// one.
pub const INFINITY_BITS: u32 = 0x7f80_0000;

/// The sign bit.
pub const SIGN_BIT: u32 = 0x8000_0000;

/// The bits of 1.
pub const ONE: u32 = 0x3f80_0000;

/// The bits of -1.
pub const MINUS_ONE: u32 = 0xbf80_0000;

/// The bits of 256.
pub const QUARTER_KILO: u32 = 0x4380_0000;

/// The bits of 1024.
pub const KILO: u32 = 0x4480_0000;

/// A binary32 number.
#[derive(Clone, Copy, PartialEq, Eq, Debug)]
pub struct Single {
    pub bits: u32,
}

/// The number with the given bits.
pub open spec fn num(bits: u32) -> Single {
    Single { bits }
}

impl Single {
    /// Whether the sign bit is set (`-0.0` and some NaNs included).
    pub open spec fn negative(self) -> bool {
        self.bits >= SIGN_BIT
    }

    /// The pattern without its sign bit; it grows with the absolute value.
    pub open spec fn magnitude(self) -> int {
        if self.bits >= SIGN_BIT {
            self.bits - SIGN_BIT
        } else {
            self.bits as int
        }
    }

    /// Whether this is not a number.
    pub open spec fn nan(self) -> bool {
        self.magnitude() > INFINITY_BITS
    }

    /// Whether this is neither infinite nor a NaN.
    pub open spec fn finite(self) -> bool {
        self.magnitude() < INFINITY_BITS
    }

    /// Position on the number line: two numbers compare as their ranks do, and both zeros have
    /// rank 0.
    pub open spec fn rank(self) -> int {
        if self.negative() {
            -self.magnitude()
        } else {
            self.magnitude()
        }
    }

    /// `self < other`; false as soon as one side is a NaN.
    pub open spec fn less(self, other: Single) -> bool {
        !self.nan() && !other.nan() && self.rank() < other.rank()
    }

    /// `self <= other`; false as soon as one side is a NaN.
    pub open spec fn at_most(self, other: Single) -> bool {
        !self.nan() && !other.nan() && self.rank() <= other.rank()
    }

    /// The absolute value: the same magnitude, no sign.
    pub open spec fn absolute(self) -> Single {
        Single { bits: self.magnitude() as u32 }
    }

    /// The number with its sign turned round.
    pub open spec fn opposite(self) -> Single {
        if self.negative() {
            Single { bits: (self.bits - SIGN_BIT) as u32 }
        } else {
            Single { bits: (self.bits + SIGN_BIT) as u32 }
        }
    }

    /// The smaller of two numbers; a NaN gives way to the other one.
    pub open spec fn lower(self, other: Single) -> Single {
        if self.nan() || other.less(self) {
            other
        } else {
            self
        }
    }

    /// The larger of two numbers; a NaN gives way to the other one.
    pub open spec fn higher(self, other: Single) -> Single {
        if self.nan() || self.less(other) {
            other
        } else {
            self
        }
    }

    /// The number held between two others; a NaN stays what it is.
    pub open spec fn between(self, low: Single, high: Single) -> Single {
        if self.less(low) {
            low
        } else if high.less(self) {
            high
        } else {
            self
        }
    }

    /// The integer part of a number from 0 up to 1024: below 1 it is 0; from there on it is what
    /// the fraction with its leading one leaves when the exponent has moved the point.
    pub open spec fn whole(self) -> int {
        let exponent = self.bits / 0x80_0000;
        if exponent < 127 {
            0
        } else {
            (0x80_0000 + self.bits % 0x80_0000) / pow2((150 - exponent) as nat) as int
        }
    }

    /// The number with the given bits.
    pub fn from_bits(bits: u32) -> (r: Single)
        ensures
            r == num(bits),
    {
        Single { bits }
    }

    /// Whether the number is neither infinite nor a NaN.
    pub fn is_finite(self) -> (r: bool)
        ensures
            r == self.finite(),
    {
        self.abs().bits < INFINITY_BITS
    }

    /// Whether this is not a number.
    pub fn is_nan(self) -> (r: bool)
        ensures
            r == self.nan(),
    {
        self.abs().bits > INFINITY_BITS
    }

    /// The absolute value.
    pub fn abs(self) -> (r: Single)
        ensures
            r == self.absolute(),
    {
        if self.bits >= SIGN_BIT {
            Single { bits: self.bits - SIGN_BIT }
        } else {
            self
        }
    }

    /// The number with its sign turned round.
    pub fn neg(self) -> (r: Single)
        ensures
            r == self.opposite(),
    {
        if self.bits >= SIGN_BIT {
            Single { bits: self.bits - SIGN_BIT }
        } else {
            Single { bits: self.bits + SIGN_BIT }
        }
    }

    /// `self < other`.
    pub fn lt(self, other: Single) -> (r: bool)
        ensures
            r == self.less(other),
    {
        if self.is_nan() || other.is_nan() {
            return false;
        }
        let a: u32 = self.abs().bits;
        let b: u32 = other.abs().bits;
        if self.bits >= SIGN_BIT {
            if other.bits >= SIGN_BIT {
                b < a
            } else {
                a > 0 || b > 0
            }
        } else {
            other.bits < SIGN_BIT && a < b
        }
    }

    /// `self <= other`.
    pub fn le(self, other: Single) -> (r: bool)
        ensures
            r == self.at_most(other),
    {
        !self.is_nan() && !other.is_nan() && !other.lt(self)
    }

    /// `self > other`.
    pub fn gt(self, other: Single) -> (r: bool)
        ensures
            r == other.less(self),
    {
        other.lt(self)
    }

    /// `self >= other`.
    pub fn ge(self, other: Single) -> (r: bool)
        ensures
            r == other.at_most(self),
    {
        other.le(self)
    }

    /// The integer part of a number from 0 up to 1024.
    pub fn trunc(self) -> (r: u32)
        requires
            !self.negative(),
            self.less(num(KILO)),
        ensures
            r == self.whole(),
            r < 1024,
            self.less(num(QUARTER_KILO)) ==> r < 256,
    {
        let exponent: u32 = self.bits / 0x80_0000;
        if exponent < 127 {
            return 0;
        }
        let fraction: u32 = 0x80_0000 + self.bits % 0x80_0000;
        proof {
            lemma2_to64();
        }
        let unit: u32 = if exponent == 127 {
            0x80_0000
        } else if exponent == 128 {
            0x40_0000
        } else if exponent == 129 {
            0x20_0000
        } else if exponent == 130 {
            0x10_0000
        } else if exponent == 131 {
            0x8_0000
        } else if exponent == 132 {
            0x4_0000
        } else if exponent == 133 {
            0x2_0000
        } else if exponent == 134 {
            0x1_0000
        } else if exponent == 135 {
            0x8000
        } else {
            0x4000
        };
        fraction / unit
    }

    /// The number held between two others; a NaN stays what it is.
    pub fn clamp(self, low: Single, high: Single) -> (r: Single)
        requires
            low.at_most(high),
        ensures
            r == self.between(low, high),
            !self.nan() ==> low.at_most(r) && r.at_most(high),
    {
        if self.lt(low) {
            low
        } else if self.gt(high) {
            high
        } else {
            self
        }
    }

    /// The smaller of two numbers; a NaN gives way to the other one.
    pub fn min(self, other: Single) -> (r: Single)
        ensures
            r == self.lower(other),
    {
        if self.is_nan() || other.lt(self) {
            other
        } else {
            self
        }
    }

    /// The larger of two numbers; a NaN gives way to the other one.
    pub fn max(self, other: Single) -> (r: Single)
        ensures
            r == self.higher(other),
    {
        if self.is_nan() || self.lt(other) {
            other
        } else {
            self
        }
    }
}

/// Among numbers that are not NaN, `<` is a strict order and its negation is `>=`: of any two,
/// exactly one of `a < b` and `b <= a` holds.
pub proof fn law_order_is_total(a: Single, b: Single)
    requires
        !a.nan(),
        !b.nan(),
    ensures
        a.less(b) != b.at_most(a),
        a.less(b) ==> !b.less(a),
{
}

/// `<` is transitive, and a NaN is ordered against nothing.
pub proof fn law_order_is_transitive(a: Single, b: Single, c: Single)
    ensures
        a.less(b) && b.less(c) ==> a.less(c),
        a.nan() ==> !a.less(b) && !b.less(a) && !a.at_most(b) && !b.at_most(a),
{
}

/// Turning the sign round twice gives the number back, and it reverses the order.
pub proof fn law_opposite_reverses(a: Single, b: Single)
    ensures
        a.opposite().opposite() == a,
        a.less(b) == b.opposite().less(a.opposite()),
        a.opposite().absolute() == a.absolute(),
{
}

/// Where the integer part of a number lies whose exponent is given: between two powers of two.
proof fn lemma_whole_bounds(x: Single, e: u32)
    requires
        e == x.bits / 0x80_0000,
        127 <= e <= 136,
    ensures
        pow2((e - 127) as nat) <= x.whole() < pow2((e - 126) as nat),
{
    lemma2_to64();
    let fraction = 0x80_0000 + x.bits % 0x80_0000;
    assert(0x80_0000 <= fraction < 0x100_0000);
    if e == 127 {
        assert(x.whole() == fraction / 0x80_0000);
    } else if e == 128 {
        assert(x.whole() == fraction / 0x40_0000);
    } else if e == 129 {
        assert(x.whole() == fraction / 0x20_0000);
    } else if e == 130 {
        assert(x.whole() == fraction / 0x10_0000);
    } else if e == 131 {
        assert(x.whole() == fraction / 0x8_0000);
    } else if e == 132 {
        assert(x.whole() == fraction / 0x4_0000);
    } else if e == 133 {
        assert(x.whole() == fraction / 0x2_0000);
    } else if e == 134 {
        assert(x.whole() == fraction / 0x1_0000);
    } else if e == 135 {
        assert(x.whole() == fraction / 0x8000);
    } else {
        assert(x.whole() == fraction / 0x4000);
    }
}

/// Integer parts grow with the numbers, from 0 up to 1024.
pub proof fn law_integer_parts_grow(a: Single, b: Single)
    requires
        !a.negative(),
        !b.negative(),
        a.at_most(b),
        b.less(num(KILO)),
    ensures
        0 <= a.whole() <= b.whole() < 1024,
        b.less(num(QUARTER_KILO)) ==> b.whole() < 256,
{
    lemma2_to64();
    let ea = a.bits / 0x80_0000;
    let eb = b.bits / 0x80_0000;
    assert(ea <= eb <= 136);
    if eb >= 127 {
        lemma_whole_bounds(b, eb);
        lemma_pow2_grows((eb - 126) as nat, 10);
        if b.less(num(QUARTER_KILO)) {
            assert(eb <= 134);
            lemma_pow2_grows((eb - 126) as nat, 8);
        }
        if ea >= 127 {
            lemma_whole_bounds(a, ea);
            if ea < eb {
                lemma_pow2_grows((ea - 126) as nat, (eb - 127) as nat);
            } else {
                let unit = pow2((150 - ea) as nat) as int;
                lemma_pow2_pos((150 - ea) as nat);
                lemma_div_is_ordered(
                    0x80_0000 + a.bits % 0x80_0000,
                    0x80_0000 + b.bits % 0x80_0000,
                    unit,
                );
            }
        }
    }
}

/// Powers of two grow with the exponent.
proof fn lemma_pow2_grows(a: nat, b: nat)
    requires
        a <= b,
    ensures
        pow2(a) <= pow2(b),
{
    if a < b {
        lemma_pow2_strictly_increases(a, b);
    }
}

/// What the comparison `<` says, read off the bits: numbers without a sign compare as their bits
/// do, numbers with one the other way round, one with a sign is below one without unless both are
/// zero, and a NaN is below nothing and above nothing.
pub proof fn law_comparison_is_read_off_the_bits(a: Single, b: Single, r: bool)
    requires
        call_ensures(Single::lt, (a, b), r),
    ensures
        r == a.less(b),
        a.bits % 0x8000_0000 > 0x7f80_0000 || b.bits % 0x8000_0000 > 0x7f80_0000 ==> !r,
        a.bits <= 0x7f80_0000 && b.bits <= 0x7f80_0000 ==> r == (a.bits < b.bits),
        0x8000_0000 <= a.bits <= 0xff80_0000 && 0x8000_0000 <= b.bits <= 0xff80_0000 ==> r == (
        b.bits < a.bits),
        0x8000_0000 <= a.bits <= 0xff80_0000 && b.bits <= 0x7f80_0000 ==> r == !(a.bits
            == 0x8000_0000 && b.bits == 0),
        a.bits <= 0x7f80_0000 && 0x8000_0000 <= b.bits ==> !r,
{
}

/// The four comparisons fit together: `a > b` is `b < a`, `a >= b` is `b <= a`, and `a <= b` is the
/// opposite of `b < a` among numbers, while a NaN satisfies none.
pub proof fn law_comparisons_fit_together(
    a: Single,
    b: Single,
    lt: bool,
    le: bool,
    gt: bool,
    ge: bool,
    back: bool,
)
    requires
        call_ensures(Single::lt, (a, b), lt),
        call_ensures(Single::le, (a, b), le),
        call_ensures(Single::gt, (a, b), gt),
        call_ensures(Single::ge, (a, b), ge),
        call_ensures(Single::lt, (b, a), back),
    ensures
        gt == back,
        le == a.at_most(b),
        ge == b.at_most(a),
        a.bits % 0x8000_0000 > 0x7f80_0000 || b.bits % 0x8000_0000 > 0x7f80_0000 ==> !lt && !le
            && !gt && !ge,
        a.bits % 0x8000_0000 <= 0x7f80_0000 && b.bits % 0x8000_0000 <= 0x7f80_0000 ==> le == !back
            && ge == !lt,
{
}

/// The absolute value drops the sign bit, the opposite turns it round, and whether a number is
/// finite or a NaN depends on the other bits alone.
pub proof fn law_sign_is_one_bit(
    a: Single,
    positive: Single,
    opposite: Single,
    finite: bool,
    nan: bool,
)
    requires
        call_ensures(Single::abs, (a,), positive),
        call_ensures(Single::neg, (a,), opposite),
        call_ensures(Single::is_finite, (a,), finite),
        call_ensures(Single::is_nan, (a,), nan),
    ensures
        positive.bits == a.bits % 0x8000_0000,
        positive == a.absolute(),
        opposite.bits % 0x8000_0000 == a.bits % 0x8000_0000,
        opposite.bits != a.bits,
        finite == (a.bits % 0x8000_0000 < 0x7f80_0000),
        nan == (a.bits % 0x8000_0000 > 0x7f80_0000),
        finite == a.finite(),
        nan == a.nan(),
{
}

/// Bits go in as they come.
pub proof fn law_bits_are_kept(bits: u32, r: Single)
    requires
        call_ensures(Single::from_bits, (bits,), r),
    ensures
        r.bits == bits,
        num(bits) == r,
{
}

/// The smaller and the larger of two numbers are these two, in their order; a NaN gives way.
pub proof fn law_min_and_max_are_the_two(a: Single, b: Single, low: Single, high: Single)
    requires
        call_ensures(Single::min, (a, b), low),
        call_ensures(Single::max, (a, b), high),
    ensures
        low == a || low == b,
        high == a || high == b,
        !a.nan() && !b.nan() ==> low.at_most(a) && low.at_most(b) && a.at_most(high) && b.at_most(
            high,
        ),
        a.nan() ==> low == b && high == b,
        b.nan() && !a.nan() ==> low == a && high == a,
{
}

/// A number held between two others lies between them, and stays what it is where it already did.
pub proof fn law_clamped_lies_between(a: Single, low: Single, high: Single, r: Single)
    requires
        low.at_most(high),
        call_ensures(Single::clamp, (a, low, high), r),
    ensures
        !a.nan() ==> low.at_most(r) && r.at_most(high),
        low.at_most(a) && a.at_most(high) ==> r == a,
        r == a || r == low && a.less(low) || r == high && high.less(a),
{
}

/// The integer part is the integer just below: a number `f * 2^(e - 150)`, with `f` the fraction
/// with its leading one and `e` the exponent, lies from it up to the next integer; below 1 it is 0.
pub proof fn law_integer_part_is_just_below(x: Single, r: u32)
    requires
        !x.negative(),
        x.less(num(KILO)),
        call_ensures(Single::trunc, (x,), r),
    ensures
        x.bits < 0x3f80_0000 ==> r == 0,
        x.bits >= 0x3f80_0000 ==> ({
            let unit = pow2((150 - x.bits / 0x80_0000) as nat);
            let fraction = 0x80_0000 + x.bits % 0x80_0000;
            r * unit <= fraction < (r + 1) * unit
        }),
{
    if x.bits >= 0x3f80_0000 {
        let unit = pow2((150 - x.bits / 0x80_0000) as nat) as int;
        let fraction = 0x80_0000 + x.bits % 0x80_0000;
        lemma_pow2_pos((150 - x.bits / 0x80_0000) as nat);
        lemma_fundamental_div_mod(fraction, unit);
        lemma_mod_division_less_than_divisor(fraction, unit);
        assert(r == fraction / unit);
        assert(unit * r == r * unit) by (nonlinear_arith);
        assert((r + 1) * unit == r * unit + unit) by (nonlinear_arith);
    }
}

} // verus!
