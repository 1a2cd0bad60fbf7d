//! Exact keyframe offsets and the schedule rules every keyframed curve
//! shares: the first offset is zero, offsets increase strictly, and (for
//! interpolated curves) the last offset is one.

use vstd::prelude::*;

verus! {

/// An exact curve offset `numerator / denominator` in the unit interval.
#[derive(Debug, Clone, Copy, PartialEq, Eq, Hash, Structural)]
pub struct KeyframeOffset {
    numerator: u64,
    denominator: u64,
}

/// Why an offset could not be constructed.
#[derive(Debug, Clone, Copy, PartialEq, Eq, Hash, Structural)]
pub enum KeyframeOffsetError {
    ZeroDenominator,
    GreaterThanOne,
}

/// How an offset compares with a progress ratio.
#[derive(Debug, Clone, Copy, PartialEq, Eq, Hash, Structural)]
pub enum RatioOrder {
    Below,
    Equal,
    Above,
}

/// The exact product of two 64-bit values.
pub fn wide_product(a: u64, b: u64) -> (product: u128)
    ensures
        product == a * b,
{
    proof {
        assert(0 <= a * b <= u64::MAX * u64::MAX) by (nonlinear_arith)
            requires
                0 <= a <= u64::MAX,
                0 <= b <= u64::MAX,
        ;
    }
    (a as u128) * (b as u128)
}

impl KeyframeOffset {
    pub closed spec fn num(self) -> int {
        self.numerator as int
    }

    pub closed spec fn den(self) -> int {
        self.denominator as int
    }

    /// A positive denominator and a value no greater than one.
    pub open spec fn wf(self) -> bool {
        0 < self.den() && 0 <= self.num() <= self.den() && self.den() <= u64::MAX
    }

    pub open spec fn is_zero(self) -> bool {
        self.num() == 0
    }

    pub open spec fn is_one(self) -> bool {
        self.num() == self.den()
    }

    /// `self < other` as exact rationals.
    pub open spec fn lt(self, other: KeyframeOffset) -> bool {
        self.num() * other.den() < other.num() * self.den()
    }

    /// `self <= numerator / denominator` as exact rationals.
    pub open spec fn le_ratio(self, numerator: int, denominator: int) -> bool {
        self.num() * denominator <= numerator * self.den()
    }

    /// The offset zero, as `0/1`.
    pub closed spec fn spec_zero() -> Self {
        KeyframeOffset { numerator: 0, denominator: 1 }
    }

    /// The offset one, as `1/1`.
    pub closed spec fn spec_one() -> Self {
        KeyframeOffset { numerator: 1, denominator: 1 }
    }

    pub fn zero() -> (offset: Self)
        ensures
            offset == Self::spec_zero(),
            offset.wf(),
            offset.is_zero(),
            offset.den() == 1,
    {
        KeyframeOffset { numerator: 0, denominator: 1 }
    }

    pub fn one() -> (offset: Self)
        ensures
            offset == Self::spec_one(),
            offset.wf(),
            offset.is_one(),
            offset.num() == 1,
    {
        KeyframeOffset { numerator: 1, denominator: 1 }
    }

    /// The offset `numerator / denominator`, refused when the denominator is
    /// zero or the value exceeds one.
    pub fn new(numerator: u64, denominator: u64) -> (offset: Result<Self, KeyframeOffsetError>)
        ensures
            denominator == 0 ==> offset == Err::<Self, KeyframeOffsetError>(KeyframeOffsetError::ZeroDenominator),
            denominator != 0 && numerator > denominator ==> offset == Err::<Self, KeyframeOffsetError>(
                KeyframeOffsetError::GreaterThanOne,
            ),
            offset matches Ok(o) ==> o.wf() && o.num() == numerator && o.den() == denominator,
            denominator != 0 && numerator <= denominator ==> offset is Ok,
    {
        if denominator == 0 {
            Err(KeyframeOffsetError::ZeroDenominator)
        } else if numerator > denominator {
            Err(KeyframeOffsetError::GreaterThanOne)
        } else {
            Ok(KeyframeOffset { numerator, denominator })
        }
    }

    pub fn numerator(self) -> (n: u64)
        ensures
            n == self.num(),
    {
        self.numerator
    }

    pub fn denominator(self) -> (d: u64)
        ensures
            d == self.den(),
    {
        self.denominator
    }

    pub fn is_zero_exec(self) -> (zero: bool)
        ensures
            zero == self.is_zero(),
    {
        self.numerator == 0
    }

    pub fn is_one_exec(self) -> (one: bool)
        ensures
            one == self.is_one(),
    {
        self.numerator == self.denominator
    }

    /// Exact `self < other`.
    pub fn less_than(self, other: KeyframeOffset) -> (less: bool)
        ensures
            less == self.lt(other),
    {
        let left = wide_product(self.numerator, other.denominator);
        let right = wide_product(other.numerator, self.denominator);
        left < right
    }

    /// Compare this offset with the progress `numerator / denominator`.
    pub fn compare_ratio(self, numerator: u64, denominator: u64) -> (order: RatioOrder)
        ensures
            order == RatioOrder::Below <==> self.num() * denominator < numerator * self.den(),
            order == RatioOrder::Equal <==> self.num() * denominator == numerator * self.den(),
            order == RatioOrder::Above <==> self.num() * denominator > numerator * self.den(),
    {
        let left = wide_product(self.numerator, denominator);
        let right = wide_product(numerator, self.denominator);
        if left < right {
            RatioOrder::Below
        } else if left == right {
            RatioOrder::Equal
        } else {
            RatioOrder::Above
        }
    }
}

/// Exact `<` on offsets is transitive.
pub proof fn lemma_lt_transitive(a: KeyframeOffset, b: KeyframeOffset, c: KeyframeOffset)
    requires
        a.wf(),
        b.wf(),
        c.wf(),
        a.lt(b),
        b.lt(c),
    ensures
        a.lt(c),
{
    let (an, ad, bn, bd, cn, cd) = (a.num(), a.den(), b.num(), b.den(), c.num(), c.den());
    assert(an * bd * cd < bn * ad * cd) by (nonlinear_arith)
        requires
            an * bd < bn * ad,
            cd > 0,
    ;
    assert(bn * cd * ad < cn * bd * ad) by (nonlinear_arith)
        requires
            bn * cd < cn * bd,
            ad > 0,
    ;
    assert(an * cd * bd < cn * ad * bd) by (nonlinear_arith)
        requires
            an * bd * cd < bn * ad * cd,
            bn * cd * ad < cn * bd * ad,
    ;
    assert(an * cd < cn * ad) by (nonlinear_arith)
        requires
            an * cd * bd < cn * ad * bd,
            bd > 0,
    ;
}

/// Every offset of `offsets` is well formed.
pub open spec fn all_wf(offsets: Seq<KeyframeOffset>) -> bool {
    forall|i: int| 0 <= i < offsets.len() ==> (#[trigger] offsets[i]).wf()
}

/// Offsets strictly increase between neighbours below `n`.
pub open spec fn increasing_prefix(offsets: Seq<KeyframeOffset>, n: int) -> bool {
    forall|i: int| 1 <= i < n ==> (#[trigger] offsets[i - 1]).lt(offsets[i])
}

/// Position `i` is the first place where offsets stop increasing.
pub open spec fn is_first_descent(offsets: Seq<KeyframeOffset>, i: int) -> bool {
    &&& 1 <= i < offsets.len()
    &&& !offsets[i - 1].lt(offsets[i])
    &&& increasing_prefix(offsets, i)
}

/// The first position whose offset does not exceed its predecessor's.
pub open spec fn first_descent(offsets: Seq<KeyframeOffset>) -> Option<int> {
    if increasing_prefix(offsets, offsets.len() as int) {
        None
    } else {
        Some(choose|i: int| is_first_descent(offsets, i))
    }
}

pub proof fn lemma_first_descent_unique(offsets: Seq<KeyframeOffset>, i: int)
    requires
        is_first_descent(offsets, i),
    ensures
        first_descent(offsets) == Some(i),
{
    assert(!increasing_prefix(offsets, offsets.len() as int));
    let c = choose|c: int| is_first_descent(offsets, c);
    assert(is_first_descent(offsets, c));
    if c < i {
        assert(offsets[c - 1].lt(offsets[c]));
    }
    if c > i {
        assert(offsets[i - 1].lt(offsets[i]));
    }
}

/// Increasing neighbours make the whole schedule increasing.
pub proof fn lemma_increasing_pairwise(offsets: Seq<KeyframeOffset>, n: int, i: int, j: int)
    requires
        all_wf(offsets),
        n <= offsets.len(),
        increasing_prefix(offsets, n),
        0 <= i < j < n,
    ensures
        offsets[i].lt(offsets[j]),
    decreases j - i,
{
    if j > i + 1 {
        lemma_increasing_pairwise(offsets, n, i, j - 1);
        assert(offsets[j - 1].lt(offsets[j]));
        lemma_lt_transitive(offsets[i], offsets[j - 1], offsets[j]);
    } else {
        assert(offsets[j - 1].lt(offsets[j]));
    }
}

/// Find the first non-increasing position of a schedule.
pub fn find_first_descent(offsets: &Vec<KeyframeOffset>) -> (descent: Option<usize>)
    ensures
        match descent {
            Some(i) => first_descent(offsets@) == Some(i as int) && is_first_descent(offsets@, i as int),
            None => first_descent(offsets@) is None,
        },
{
    let mut i: usize = 1;
    while i < offsets.len()
        invariant
            1 <= i,
            i <= offsets.len() || offsets.len() == 0,
            increasing_prefix(offsets@, i as int),
        decreases offsets.len() - i,
    {
        if !offsets[i - 1].less_than(offsets[i]) {
            proof {
                lemma_first_descent_unique(offsets@, i as int);
            }
            return Some(i);
        }
        i += 1;
    }
    assert(increasing_prefix(offsets@, offsets.len() as int));
    None
}

} // verus!
