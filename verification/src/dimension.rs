//! Lengths, measured in points and stored in fixed point.
use vstd::prelude::*;

verus! {

/// Fixed-point units in one point.
///
/// Twips (20 to the point), English Metric Units (12700 to the point), the
/// eighths of a point used by border widths, and thirds and hundredths of a
/// point are all whole numbers of units.
pub const UNITS_PER_POINT: i64 = 76200;

/// A length or a coordinate in points.
///
/// Arithmetic saturates: a sum past either end of the range stays at that end,
/// as a sum of floating-point lengths would stay at an infinity.
#[derive(Clone, Copy, Debug, PartialEq, Eq, PartialOrd, Ord, Hash, Structural)]
pub struct Pt {
    /// The length in units of `1 / UNITS_PER_POINT` of a point.
    pub units: i64,
}

/// The representable number of units nearest to `x`.
pub open spec fn saturate(x: int) -> i64 {
    if x > i64::MAX {
        i64::MAX
    } else if x < i64::MIN {
        i64::MIN
    } else {
        x as i64
    }
}

fn saturate_exec(x: i128) -> (r: i64)
    ensures
        r == saturate(x as int),
{
    if x > 0x7fff_ffff_ffff_ffff {
        i64::MAX
    } else if x < -0x8000_0000_0000_0000 {
        i64::MIN
    } else {
        x as i64
    }
}

/// The quotient of `x` and a positive `n`, rounded down.
fn floor_div(x: i128, n: i128) -> (r: i128)
    requires
        n > 0,
        -0x4000_0000_0000_0000_0000_0000_0000_0000 <= x <= 0x4000_0000_0000_0000_0000_0000_0000_0000,
        n <= 0xffff_ffff_ffff_ffff,
    ensures
        r == (x as int) / (n as int),
{
    if x >= 0 {
        x / n
    } else {
        let m: i128 = -(x + 1);
        let q: i128 = m / n;
        proof {
            let xi = x as int;
            let ni = n as int;
            let qi = q as int;
            assert(qi == (-(xi + 1)) / ni);
            vstd::arithmetic::div_mod::lemma_fundamental_div_mod(-(xi + 1), ni);
            let rem = (-(xi + 1)) % ni;
            assert(0 <= rem < ni);
            assert(xi == ni * (-(qi + 1)) + (ni - 1 - rem)) by (nonlinear_arith)
                requires
                    -(xi + 1) == ni * qi + rem,
            ;
            vstd::arithmetic::div_mod::lemma_fundamental_div_mod_converse(
                xi,
                ni,
                -(qi + 1),
                ni - 1 - rem,
            );
            assert(0 <= qi <= -(xi + 1)) by (nonlinear_arith)
                requires
                    qi == (-(xi + 1)) / ni,
                    ni > 0,
                    -(xi + 1) >= 0,
            ;
        }
        -(q + 1)
    }
}

/// `a * num / den` in unlimited precision, rounded down and then saturated.
pub open spec fn ratio(a: int, num: int, den: int) -> i64 {
    saturate((a * num) / den)
}

impl Pt {
    /// The zero length.
    #[verifier::allow_in_spec]
    pub fn zero() -> Pt
        returns
            (Pt { units: 0 }),
    {
        Pt { units: 0 }
    }

    /// The greatest length: no bound at all.
    #[verifier::allow_in_spec]
    pub fn infinity() -> Pt
        returns
            (Pt { units: i64::MAX }),
    {
        Pt { units: i64::MAX }
    }

    /// A length of `units` fixed-point units.
    #[verifier::allow_in_spec]
    pub fn from_units(units: i64) -> Pt
        returns
            (Pt { units }),
    {
        Pt { units }
    }

    /// A whole number of points.
    #[verifier::allow_in_spec]
    pub fn points(n: i32) -> Pt
        returns
            (Pt { units: (n * UNITS_PER_POINT) as i64 }),
    {
        Pt { units: n as i64 * UNITS_PER_POINT }
    }

    /// `self + other`.
    #[verifier::allow_in_spec]
    pub fn plus(self, other: Pt) -> Pt
        returns
            (Pt { units: saturate(self.units + other.units) }),
    {
        Pt { units: saturate_exec(self.units as i128 + other.units as i128) }
    }

    /// `self - other`.
    #[verifier::allow_in_spec]
    pub fn minus(self, other: Pt) -> Pt
        returns
            (Pt { units: saturate(self.units - other.units) }),
    {
        Pt { units: saturate_exec(self.units as i128 - other.units as i128) }
    }

    /// The greater of two lengths.
    #[verifier::allow_in_spec]
    pub fn max(self, other: Pt) -> Pt
        returns
            (if self.units >= other.units { self } else { other }),
    {
        if self.units >= other.units {
            self
        } else {
            other
        }
    }

    /// The lesser of two lengths.
    #[verifier::allow_in_spec]
    pub fn min(self, other: Pt) -> Pt
        returns
            (if self.units <= other.units { self } else { other }),
    {
        if self.units <= other.units {
            self
        } else {
            other
        }
    }

    /// `self * num / den`, rounded down to a whole unit.
    pub fn scale(self, num: Pt, den: Pt) -> (r: Pt)
        requires
            den.units > 0,
        ensures
            r == (Pt { units: ratio(self.units as int, num.units as int, den.units as int) }),
    {
        let a: i128 = self.units as i128;
        let b: i128 = num.units as i128;
        assert(-0x4000_0000_0000_0000_0000_0000_0000_0000 <= a * b
            <= 0x4000_0000_0000_0000_0000_0000_0000_0000) by (nonlinear_arith)
            requires
                -0x8000_0000_0000_0000 <= a <= 0x7fff_ffff_ffff_ffff,
                -0x8000_0000_0000_0000 <= b <= 0x7fff_ffff_ffff_ffff,
        ;
        let q: i128 = floor_div(a * b, den.units as i128);
        Pt { units: saturate_exec(q) }
    }

    /// `self` times the whole number `n`.
    #[verifier::allow_in_spec]
    pub fn times(self, n: u32) -> Pt
        returns
            (Pt { units: saturate(self.units * n) }),
    {
        assert(-0x8000_0000_0000_0000_0000_0000 <= self.units * n
            <= 0x8000_0000_0000_0000_0000_0000) by (nonlinear_arith)
            requires
                -0x8000_0000_0000_0000 <= self.units <= 0x7fff_ffff_ffff_ffff,
                0 <= n <= 0xffff_ffff,
        ;
        Pt { units: saturate_exec(self.units as i128 * n as i128) }
    }

    /// `self / n`, rounded down to a whole unit.
    #[verifier::allow_in_spec]
    pub fn divided(self, n: usize) -> Pt
        requires
            0 < n,
        returns
            (Pt { units: saturate(self.units as int / n as int) }),
    {
        Pt { units: saturate_exec(floor_div(self.units as i128, n as i128)) }
    }

    /// Half of `self`, rounded down to a whole unit.
    #[verifier::allow_in_spec]
    pub fn half(self) -> Pt
        returns
            (Pt { units: (self.units as int / 2) as i64 }),
    {
        let q: i128 = floor_div(self.units as i128, 2);
        Pt { units: q as i64 }
    }

    /// A third of `self`, rounded down to a whole unit.
    #[verifier::allow_in_spec]
    pub fn third(self) -> Pt
        returns
            (Pt { units: (self.units as int / 3) as i64 }),
    {
        let q: i128 = floor_div(self.units as i128, 3);
        Pt { units: q as i64 }
    }
}

impl std::ops::Add<Pt> for Pt {
    type Output = Pt;

    fn add(self, rhs: Pt) -> (r: Pt) {
        self.plus(rhs)
    }
}

impl vstd::std_specs::ops::AddSpecImpl<Pt> for Pt {
    open spec fn obeys_add_spec() -> bool {
        true
    }

    open spec fn add_req(self, rhs: Pt) -> bool {
        true
    }

    open spec fn add_spec(self, rhs: Pt) -> Pt {
        self.plus(rhs)
    }
}

impl std::ops::Sub<Pt> for Pt {
    type Output = Pt;

    fn sub(self, rhs: Pt) -> (r: Pt) {
        self.minus(rhs)
    }
}

impl vstd::std_specs::ops::SubSpecImpl<Pt> for Pt {
    open spec fn obeys_sub_spec() -> bool {
        true
    }

    open spec fn sub_req(self, rhs: Pt) -> bool {
        true
    }

    open spec fn sub_spec(self, rhs: Pt) -> Pt {
        self.minus(rhs)
    }
}

/// The sum of the first `n` lengths, taken from the left.
pub open spec fn sum_to(s: Seq<Pt>, n: int) -> Pt
    decreases n,
{
    if n <= 0 {
        Pt::zero()
    } else {
        sum_to(s, n - 1).plus(s[n - 1])
    }
}

/// The sum of all lengths, taken from the left.
pub open spec fn sum(s: Seq<Pt>) -> Pt {
    sum_to(s, s.len() as int)
}

/// The sum of `s[from..to]`, taken from the left.
pub fn sum_range(s: &[Pt], from: usize, to: usize) -> (r: Pt)
    requires
        from <= to <= s@.len(),
    ensures
        r == sum(s@.subrange(from as int, to as int)),
{
    let mut total = Pt::zero();
    let mut i: usize = from;
    let ghost part = s@.subrange(from as int, to as int);
    while i < to
        invariant
            from <= i <= to <= s@.len(),
            part == s@.subrange(from as int, to as int),
            total == sum_to(part, i - from),
        decreases to - i,
    {
        total = total.plus(s[i]);
        i += 1;
        assert(part[i - from - 1] == s@[i - 1]);
    }
    total
}

} // verus!
