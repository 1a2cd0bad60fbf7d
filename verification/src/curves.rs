//! Keyframed property curves: singleton-solid fill colors, hold-until-next
//! discrete schedules, and the topology rule for interpolated paths, plus the
//! easing vocabulary whose controls the curves check.

use vstd::prelude::*;
use crate::keyframes::{
    find_first_descent, first_descent, increasing_prefix, lemma_increasing_pairwise, all_wf,
    KeyframeOffset, RatioOrder,
};
use crate::animation::TransformKind;
use crate::paint::Color;
use crate::properties::PropertyValueKind;

verus! {

// ── first index of a property ──────────────────────────────────────────────

/// `i` is the first index in `[lo, ..)` where `p` holds.
pub open spec fn is_first(p: spec_fn(int) -> bool, lo: int, i: int) -> bool {
    &&& lo <= i
    &&& p(i)
    &&& forall|j: int| lo <= j < i ==> !#[trigger] p(j)
}

/// The first index in `[lo, hi)` where `p` holds.
pub open spec fn first_index(p: spec_fn(int) -> bool, lo: int, hi: int) -> Option<int> {
    if exists|i: int| lo <= i < hi && #[trigger] p(i) {
        Some(choose|i: int| is_first(p, lo, i) && i < hi)
    } else {
        None
    }
}

pub proof fn lemma_first_index(p: spec_fn(int) -> bool, lo: int, hi: int, i: int)
    requires
        is_first(p, lo, i),
        i < hi,
    ensures
        first_index(p, lo, hi) == Some(i),
{
    assert(lo <= i < hi && p(i));
    let c = choose|c: int| is_first(p, lo, c) && c < hi;
    assert(is_first(p, lo, c) && c < hi);
    if c < i {
        assert(!p(c));
    }
    if c > i {
        assert(!p(i));
    }
}

/// Where `p` holds somewhere in `[lo, hi)`, a first such index exists.
pub proof fn lemma_first_index_some(p: spec_fn(int) -> bool, lo: int, hi: int, i: int)
    requires
        lo <= i < hi,
        p(i),
    ensures
        first_index(p, lo, hi) matches Some(c) && is_first(p, lo, c) && c < hi,
    decreases i - lo,
{
    if forall|j: int| lo <= j < i ==> !#[trigger] p(j) {
        lemma_first_index(p, lo, hi, i);
    } else {
        let j = choose|j: int| lo <= j < i && #[trigger] p(j);
        lemma_first_index_some(p, lo, hi, j);
    }
}

pub proof fn lemma_first_index_none(p: spec_fn(int) -> bool, lo: int, hi: int)
    requires
        forall|j: int| lo <= j < hi ==> !#[trigger] p(j),
    ensures
        first_index(p, lo, hi) is None,
{
}

// ── easing ─────────────────────────────────────────────────────────────────

/// One exact timing-function control value.
#[derive(Debug, Clone, Copy, PartialEq, Eq, Hash, Structural)]
pub struct ControlValue {
    numerator: i64,
    denominator: u64,
}

impl ControlValue {
    pub closed spec fn num(self) -> int {
        self.numerator as int
    }

    pub closed spec fn den(self) -> int {
        self.denominator as int
    }

    /// The value lies in the closed unit interval.
    pub open spec fn in_unit_interval(self) -> bool {
        0 <= self.num() <= self.den()
    }

    /// `numerator / denominator`; `None` when the denominator is zero.
    pub fn new(numerator: i64, denominator: u64) -> (value: Option<Self>)
        ensures
            denominator == 0 ==> value is None,
            denominator != 0 ==> (value matches Some(v) && v.num() == numerator && v.den() == denominator),
    {
        if denominator == 0 {
            None
        } else {
            Some(ControlValue { numerator, denominator })
        }
    }

    pub fn numerator(self) -> (n: i64)
        ensures
            n == self.num(),
    {
        self.numerator
    }

    pub fn denominator(self) -> (d: u64)
        ensures
            d == self.den(),
    {
        self.denominator
    }

    pub fn is_in_unit_interval(self) -> (inside: bool)
        ensures
            inside == self.in_unit_interval(),
    {
        self.numerator >= 0 && (self.numerator as u64) <= self.denominator
    }
}

/// The four controls of a cubic Bézier timing function.
#[derive(Debug, Clone, Copy, PartialEq, Eq, Hash, Structural)]
pub enum CubicControl {
    X1,
    Y1,
    X2,
    Y2,
}

#[derive(Debug, Clone, Copy, PartialEq, Eq, Hash, Structural)]
pub enum CubicBezierError {
    XOutsideUnitInterval { control: CubicControl },
}

/// A cubic Bézier timing function whose time controls lie in the unit
/// interval.
#[derive(Debug, Clone, Copy, PartialEq, Eq, Hash, Structural)]
pub struct CubicBezier {
    x1: ControlValue,
    y1: ControlValue,
    x2: ControlValue,
    y2: ControlValue,
}

impl CubicBezier {
    pub closed spec fn spec_y1(self) -> ControlValue {
        self.y1
    }

    pub closed spec fn spec_y2(self) -> ControlValue {
        self.y2
    }

    pub closed spec fn spec_x1(self) -> ControlValue {
        self.x1
    }

    pub closed spec fn spec_x2(self) -> ControlValue {
        self.x2
    }

    /// Refuses a time control outside `[0, 1]`, checking `x1` first.
    pub fn new(x1: ControlValue, y1: ControlValue, x2: ControlValue, y2: ControlValue) -> (curve: Result<Self, CubicBezierError>)
        ensures
            !x1.in_unit_interval() ==> curve == Err::<Self, CubicBezierError>(
                CubicBezierError::XOutsideUnitInterval { control: CubicControl::X1 },
            ),
            x1.in_unit_interval() && !x2.in_unit_interval() ==> curve == Err::<Self, CubicBezierError>(
                CubicBezierError::XOutsideUnitInterval { control: CubicControl::X2 },
            ),
            x1.in_unit_interval() && x2.in_unit_interval() ==> (curve matches Ok(c) && c.spec_x1() == x1
                && c.spec_y1() == y1 && c.spec_x2() == x2 && c.spec_y2() == y2),
    {
        if !x1.is_in_unit_interval() {
            Err(CubicBezierError::XOutsideUnitInterval { control: CubicControl::X1 })
        } else if !x2.is_in_unit_interval() {
            Err(CubicBezierError::XOutsideUnitInterval { control: CubicControl::X2 })
        } else {
            Ok(CubicBezier { x1, y1, x2, y2 })
        }
    }

    pub fn y1(self) -> (y: ControlValue)
        ensures
            y == self.spec_y1(),
    {
        self.y1
    }

    pub fn y2(self) -> (y: ControlValue)
        ensures
            y == self.spec_y2(),
    {
        self.y2
    }
}

/// A timing function applied to a segment's local progress.
#[derive(Debug, Clone, Copy, PartialEq, Eq, Hash, Structural)]
pub enum Easing {
    Linear,
    CubicBezier(CubicBezier),
}

/// The first property-space control of `easing` outside the unit interval.
pub open spec fn unsafe_y_control(easing: Easing) -> Option<CubicControl> {
    match easing {
        Easing::Linear => None,
        Easing::CubicBezier(c) => if !c.spec_y1().in_unit_interval() {
            Some(CubicControl::Y1)
        } else if !c.spec_y2().in_unit_interval() {
            Some(CubicControl::Y2)
        } else {
            None
        },
    }
}

/// The first `y` control outside the unit interval, which would make
/// interpolation leave the convex hull of its endpoints.
pub fn find_unsafe_y_control(easing: &Easing) -> (control: Option<CubicControl>)
    ensures
        control == unsafe_y_control(*easing),
{
    match easing {
        Easing::Linear => None,
        Easing::CubicBezier(c) => {
            if !c.y1().is_in_unit_interval() {
                Some(CubicControl::Y1)
            } else if !c.y2().is_in_unit_interval() {
                Some(CubicControl::Y2)
            } else {
                None
            }
        },
    }
}

// ── singleton-solid color curves ───────────────────────────────────────────

/// One complete singleton-solid fill value at an exact curve offset.
#[derive(Debug, Clone, Copy, PartialEq, Eq, Hash, Structural)]
pub struct ColorKeyframe {
    pub offset: KeyframeOffset,
    pub color: Color,
}

impl ColorKeyframe {
    pub fn new(offset: KeyframeOffset, color: Color) -> (keyframe: Self)
        ensures
            keyframe == (ColorKeyframe { offset, color }),
    {
        ColorKeyframe { offset, color }
    }
}

#[derive(Debug, Clone, Copy, PartialEq, Eq, Hash, Structural)]
pub struct ColorSegment {
    pub easing: Easing,
    pub end: ColorKeyframe,
}

impl ColorSegment {
    pub fn new(easing: Easing, end: ColorKeyframe) -> (segment: Self)
        ensures
            segment == (ColorSegment { easing, end }),
    {
        ColorSegment { easing, end }
    }
}

#[derive(Debug, Clone, Copy, PartialEq, Eq, Hash, Structural)]
pub enum ColorCurveError {
    FirstOffsetMustBeZero { actual: KeyframeOffset },
    LastOffsetMustBeOne { actual: KeyframeOffset },
    OffsetsNotStrictlyIncreasing {
        previous_index: usize,
        current_index: usize,
        previous: KeyframeOffset,
        current: KeyframeOffset,
    },
}

/// A keyframed legacy-sRGB solid-fill color.
#[derive(Debug, Clone, PartialEq, Eq)]
pub struct ColorCurve {
    first: ColorKeyframe,
    segments: Vec<ColorSegment>,
}

/// The offsets of a color schedule: the first keyframe, then every segment
/// end.
pub open spec fn color_schedule(first: ColorKeyframe, segments: Seq<ColorSegment>) -> Seq<KeyframeOffset> {
    seq![first.offset] + segments.map_values(|s: ColorSegment| s.end.offset)
}

/// The outcome `ColorCurve::new` owes for `first` and `segments`: `None`
/// when they form a valid curve.
pub open spec fn color_curve_error(first: ColorKeyframe, segments: Seq<ColorSegment>) -> Option<ColorCurveError> {
    let schedule = color_schedule(first, segments);
    if segments.len() == 0 {
        None
    } else if !first.offset.is_zero() {
        Some(ColorCurveError::FirstOffsetMustBeZero { actual: first.offset })
    } else if first_descent(schedule) is Some {
        let i = first_descent(schedule).unwrap();
        Some(
            ColorCurveError::OffsetsNotStrictlyIncreasing {
                previous_index: (i - 1) as usize,
                current_index: i as usize,
                previous: schedule[i - 1],
                current: schedule[i],
            },
        )
    } else if !schedule.last().is_one() {
        Some(ColorCurveError::LastOffsetMustBeOne { actual: schedule.last() })
    } else {
        None
    }
}

impl ColorCurve {
    pub closed spec fn spec_first(&self) -> ColorKeyframe {
        self.first
    }

    pub closed spec fn spec_segments(&self) -> Seq<ColorSegment> {
        self.segments@
    }

    /// A validated schedule: with any segment, offsets start at zero,
    /// increase strictly, and end at one; without one, the offset is zero.
    pub fn new(first: ColorKeyframe, segments: Vec<ColorSegment>) -> (curve: Result<Self, ColorCurveError>)
        ensures
            match curve {
                Err(e) => color_curve_error(first, segments@) == Some(e),
                Ok(c) => color_curve_error(first, segments@) is None && (if segments@.len() == 0 {
                    c.spec_first().color == first.color && c.spec_first().offset.is_zero()
                        && c.spec_first().offset.wf() && c.spec_segments().len() == 0
                } else {
                    c.spec_first() == first && c.spec_segments() == segments@
                }),
            },
    {
        if segments.len() == 0 {
            return Ok(Self::constant(first.color));
        }
        if !first.offset.is_zero_exec() {
            return Err(ColorCurveError::FirstOffsetMustBeZero { actual: first.offset });
        }
        let mut schedule: Vec<KeyframeOffset> = Vec::new();
        schedule.push(first.offset);
        let mut i: usize = 0;
        while i < segments.len()
            invariant
                i <= segments@.len(),
                schedule@ == seq![first.offset] + segments@.take(i as int).map_values(|s: ColorSegment| s.end.offset),
            decreases segments@.len() - i,
        {
            schedule.push(segments[i].end.offset);
            assert(segments@.take(i + 1).map_values(|s: ColorSegment| s.end.offset)
                =~= segments@.take(i as int).map_values(|s: ColorSegment| s.end.offset).push(segments@[i as int].end.offset));
            i += 1;
        }
        assert(segments@.take(segments@.len() as int) =~= segments@);
        assert(schedule@ == color_schedule(first, segments@));
        match find_first_descent(&schedule) {
            Some(index) => {
                return Err(
                    ColorCurveError::OffsetsNotStrictlyIncreasing {
                        previous_index: index - 1,
                        current_index: index,
                        previous: schedule[index - 1],
                        current: schedule[index],
                    },
                );
            },
            None => {},
        }
        let last = schedule[schedule.len() - 1];
        if !last.is_one_exec() {
            return Err(ColorCurveError::LastOffsetMustBeOne { actual: last });
        }
        Ok(ColorCurve { first, segments })
    }

    /// Interpolate `from` to `to` linearly over the whole curve.
    pub fn linear(from: Color, to: Color) -> (curve: Self)
        ensures
            curve.spec_first().color == from,
            curve.spec_first().offset.is_zero(),
            curve.spec_segments().len() == 1,
            curve.spec_segments()[0].easing == Easing::Linear,
            curve.spec_segments()[0].end.color == to,
            curve.spec_segments()[0].end.offset.is_one(),
    {
        let mut segments = Vec::new();
        segments.push(ColorSegment::new(Easing::Linear, ColorKeyframe::new(KeyframeOffset::one(), to)));
        ColorCurve { first: ColorKeyframe::new(KeyframeOffset::zero(), from), segments }
    }

    /// One color at every offset.
    pub fn constant(color: Color) -> (curve: Self)
        ensures
            curve.spec_first().color == color,
            curve.spec_first().offset.is_zero(),
            curve.spec_first().offset.wf(),
            curve.spec_segments().len() == 0,
    {
        ColorCurve { first: ColorKeyframe::new(KeyframeOffset::zero(), color), segments: Vec::new() }
    }

    pub fn first(&self) -> (first: ColorKeyframe)
        ensures
            first == self.spec_first(),
    {
        self.first
    }

    pub fn segments(&self) -> (segments: &[ColorSegment])
        ensures
            segments@ == self.spec_segments(),
    {
        self.segments.as_slice()
    }

    pub fn keyframe_count(&self) -> (count: usize)
        requires
            self.spec_segments().len() < usize::MAX,
        ensures
            count == 1 + self.spec_segments().len(),
    {
        1 + self.segments.len()
    }

    pub fn first_color(&self) -> (color: Color)
        ensures
            color == self.spec_first().color,
    {
        self.first.color
    }

    /// The final keyframe's color.
    pub fn last_color(&self) -> (color: Color)
        ensures
            color == (if self.spec_segments().len() == 0 {
                self.spec_first().color
            } else {
                self.spec_segments().last().end.color
            }),
    {
        if self.segments.len() == 0 {
            self.first.color
        } else {
            self.segments[self.segments.len() - 1].end.color
        }
    }
}

// ── discrete hold-until-next curves ────────────────────────────────────────

/// One complete property value selected at an exact discrete offset.
#[derive(Debug, Clone, PartialEq, Eq)]
pub struct DiscreteKeyframe<V> {
    pub offset: KeyframeOffset,
    pub kind: PropertyValueKind,
    pub value: V,
}

impl<V> DiscreteKeyframe<V> {
    pub fn new(offset: KeyframeOffset, kind: PropertyValueKind, value: V) -> (keyframe: Self)
        ensures
            keyframe == (DiscreteKeyframe { offset, kind, value }),
    {
        DiscreteKeyframe { offset, kind, value }
    }

    pub fn value(&self) -> (value: &V)
        ensures
            *value == self.value,
    {
        &self.value
    }
}

#[allow(inconsistent_fields)]
#[derive(Debug, Clone, Copy, PartialEq, Eq, Hash, Structural)]
pub enum DiscreteCurveError {
    Empty,
    MixedValueKind { keyframe_index: usize, expected: PropertyValueKind, actual: PropertyValueKind },
    FirstOffsetMustBeZero { actual: KeyframeOffset },
    OffsetsNotStrictlyIncreasing {
        previous_index: usize,
        current_index: usize,
        previous: KeyframeOffset,
        current: KeyframeOffset,
    },
}

/// A format-neutral, hold-until-next-offset replacement curve. The terminal
/// offset may be below one.
#[derive(Debug, Clone, PartialEq, Eq)]
pub struct DiscreteCurve<V> {
    keyframes: Vec<DiscreteKeyframe<V>>,
}

pub open spec fn discrete_offsets<V>(keyframes: Seq<DiscreteKeyframe<V>>) -> Seq<KeyframeOffset> {
    keyframes.map_values(|k: DiscreteKeyframe<V>| k.offset)
}

/// The first keyframe whose value kind differs from the first keyframe's.
pub open spec fn mixed_kind<V>(keyframes: Seq<DiscreteKeyframe<V>>) -> Option<int> {
    first_index(|i: int| keyframes[i].kind != keyframes[0].kind, 1, keyframes.len() as int)
}

/// The refusal `DiscreteCurve::new` owes for `keyframes`, if any.
pub open spec fn discrete_curve_error<V>(keyframes: Seq<DiscreteKeyframe<V>>) -> Option<DiscreteCurveError> {
    let offsets = discrete_offsets(keyframes);
    if keyframes.len() == 0 {
        Some(DiscreteCurveError::Empty)
    } else if mixed_kind(keyframes) is Some {
        let i = mixed_kind(keyframes).unwrap();
        Some(
            DiscreteCurveError::MixedValueKind {
                keyframe_index: i as usize,
                expected: keyframes[0].kind,
                actual: keyframes[i].kind,
            },
        )
    } else if keyframes.len() == 1 {
        None
    } else if !keyframes[0].offset.is_zero() {
        Some(DiscreteCurveError::FirstOffsetMustBeZero { actual: keyframes[0].offset })
    } else if first_descent(offsets) is Some {
        let i = first_descent(offsets).unwrap();
        Some(
            DiscreteCurveError::OffsetsNotStrictlyIncreasing {
                previous_index: (i - 1) as usize,
                current_index: i as usize,
                previous: offsets[i - 1],
                current: offsets[i],
            },
        )
    } else {
        None
    }
}

/// `r` is the keyframe held at progress `n / d`: the last keyframe whose
/// offset does not exceed the progress.
pub open spec fn holds_at(offsets: Seq<KeyframeOffset>, r: int, n: int, d: int) -> bool {
    &&& 0 <= r < offsets.len()
    &&& offsets[r].le_ratio(n, d)
    &&& r + 1 < offsets.len() ==> !offsets[r + 1].le_ratio(n, d)
}

proof fn lemma_le_through_lt(a: KeyframeOffset, b: KeyframeOffset, n: int, d: int)
    requires
        a.wf(),
        b.wf(),
        d > 0,
        a.lt(b),
        b.le_ratio(n, d),
    ensures
        a.le_ratio(n, d),
{
    let (an, ad, bn, bd) = (a.num(), a.den(), b.num(), b.den());
    assert(an * bd * d <= bn * ad * d) by (nonlinear_arith)
        requires
            an * bd < bn * ad,
            d > 0,
    ;
    assert(bn * d * ad <= n * bd * ad) by (nonlinear_arith)
        requires
            bn * d <= n * bd,
            ad > 0,
    ;
    assert(an * d <= n * ad) by (nonlinear_arith)
        requires
            an * bd * d <= bn * ad * d,
            bn * d * ad <= n * bd * ad,
            bd > 0,
    ;
}

impl<V> DiscreteCurve<V> {
    pub closed spec fn spec_keyframes(&self) -> Seq<DiscreteKeyframe<V>> {
        self.keyframes@
    }

    /// At least one keyframe, all of one value kind, with well-formed offsets
    /// that start at zero and increase strictly.
    pub open spec fn wf(&self) -> bool {
        let offsets = discrete_offsets(self.spec_keyframes());
        &&& self.spec_keyframes().len() >= 1
        &&& all_wf(offsets)
        &&& offsets[0].is_zero()
        &&& increasing_prefix(offsets, offsets.len() as int)
        &&& forall|i: int|
            0 <= i < self.spec_keyframes().len() ==> (#[trigger] self.spec_keyframes()[i]).kind
                == self.spec_keyframes()[0].kind
    }

    /// The keyframe index held at progress `n / d`.
    pub open spec fn spec_sample_index(&self, n: int, d: int) -> int {
        choose|r: int| holds_at(discrete_offsets(self.spec_keyframes()), r, n, d)
    }

    /// Validate a schedule. A single keyframe holds at every offset, so its
    /// offset is normalized to zero.
    pub fn new(keyframes: Vec<DiscreteKeyframe<V>>) -> (curve: Result<Self, DiscreteCurveError>)
        requires
            all_wf(discrete_offsets(keyframes@)),
        ensures
            match curve {
                Err(e) => discrete_curve_error(keyframes@) == Some(e),
                Ok(c) => {
                    &&& discrete_curve_error(keyframes@) is None
                    &&& c.wf()
                    &&& keyframes@.len() > 1 ==> c.spec_keyframes() == keyframes@
                    &&& keyframes@.len() == 1 ==> c.spec_keyframes().len() == 1
                        && c.spec_keyframes()[0].value == keyframes@[0].value
                        && c.spec_keyframes()[0].kind == keyframes@[0].kind
                },
            },
    {
        let ghost input = keyframes@;
        let mut list = keyframes;
        if list.len() == 0 {
            return Err(DiscreteCurveError::Empty);
        }
        let expected = list[0].kind;
        let ghost p = |i: int| input[i].kind != input[0].kind;
        let mut i: usize = 1;
        while i < list.len()
            invariant
                1 <= i <= list@.len(),
                list@ == input,
                input == keyframes@,
                expected == input[0].kind,
                p == (|i: int| input[i].kind != input[0].kind),
                forall|j: int| 1 <= j < i ==> !#[trigger] p(j),
            decreases list@.len() - i,
        {
            let actual = list[i].kind;
            if actual != expected {
                proof {
                    lemma_first_index(p, 1, input.len() as int, i as int);
                    assert(p =~= (|i: int| input[i].kind != input[0].kind));
                    assert(mixed_kind(input) == Some(i as int));
                    assert(input.len() != 0);
                    assert(actual == input[i as int].kind);
                    assert(expected == input[0].kind);
                    assert(discrete_curve_error(input) == Some(DiscreteCurveError::MixedValueKind { keyframe_index: i, expected, actual }));
                }
                return Err(DiscreteCurveError::MixedValueKind { keyframe_index: i, expected, actual });
            }
            i += 1;
        }
        proof {
            lemma_first_index_none(p, 1, input.len() as int);
            assert(p =~= (|i: int| input[i].kind != input[0].kind));
            assert(mixed_kind(input) is None);
        }
        if list.len() == 1 {
            let last = list.pop();
            match last {
                Some(keyframe) => {
                    let mut keyframe = keyframe;
                    keyframe.offset = KeyframeOffset::zero();
                    let mut single = Vec::new();
                    single.push(keyframe);
                    let curve = DiscreteCurve { keyframes: single };
                    assert(discrete_offsets(curve.spec_keyframes())[0] == curve.spec_keyframes()[0].offset);
                    return Ok(curve);
                },
                None => {
                    return Err(DiscreteCurveError::Empty);
                },
            }
        }
        if !list[0].offset.is_zero_exec() {
            return Err(DiscreteCurveError::FirstOffsetMustBeZero { actual: list[0].offset });
        }
        let mut offsets: Vec<KeyframeOffset> = Vec::new();
        let mut k: usize = 0;
        while k < list.len()
            invariant
                k <= list@.len(),
                list@ == input,
                offsets@ == discrete_offsets(input.take(k as int)),
            decreases list@.len() - k,
        {
            offsets.push(list[k].offset);
            assert(discrete_offsets(input.take(k + 1)) =~= discrete_offsets(input.take(k as int)).push(input[k as int].offset));
            k += 1;
        }
        assert(input.take(input.len() as int) =~= input);
        match find_first_descent(&offsets) {
            Some(index) => {
                return Err(
                    DiscreteCurveError::OffsetsNotStrictlyIncreasing {
                        previous_index: index - 1,
                        current_index: index,
                        previous: offsets[index - 1],
                        current: offsets[index],
                    },
                );
            },
            None => {},
        }
        let curve = DiscreteCurve { keyframes: list };
        assert(forall|j: int| 0 <= j < input.len() ==> !#[trigger] p(j) || j == 0);
        assert forall|j: int| 0 <= j < curve.spec_keyframes().len() implies (#[trigger] curve.spec_keyframes()[j]).kind
            == curve.spec_keyframes()[0].kind by {
            if j > 0 {
                assert(!p(j));
            }
        }
        Ok(curve)
    }

    pub fn keyframes(&self) -> (keyframes: &[DiscreteKeyframe<V>])
        ensures
            keyframes@ == self.spec_keyframes(),
    {
        self.keyframes.as_slice()
    }

    pub fn first_value(&self) -> (value: &V)
        requires
            self.wf(),
        ensures
            *value == self.spec_keyframes()[0].value,
    {
        &self.keyframes[0].value
    }

    pub fn last_value(&self) -> (value: &V)
        requires
            self.wf(),
        ensures
            *value == self.spec_keyframes().last().value,
    {
        &self.keyframes[self.keyframes.len() - 1].value
    }

    /// The index held at active progress `numerator / denominator`.
    pub fn sample_index(&self, numerator: u64, denominator: u64) -> (index: usize)
        requires
            self.wf(),
            denominator > 0,
            numerator < denominator,
        ensures
            holds_at(discrete_offsets(self.spec_keyframes()), index as int, numerator as int, denominator as int),
            index as int == self.spec_sample_index(numerator as int, denominator as int),
    {
        let ghost offsets = discrete_offsets(self.spec_keyframes());
        let ghost n = numerator as int;
        let ghost d = denominator as int;
        let len = self.keyframes.len();
        let mut lo: usize = 0;
        let mut hi: usize = len;
        while lo < hi
            invariant
                self.wf(),
                offsets == discrete_offsets(self.spec_keyframes()),
                len == offsets.len(),
                n == numerator,
                d == denominator,
                d > 0,
                0 <= lo <= hi <= len,
                forall|j: int| 0 <= j < lo ==> (#[trigger] offsets[j]).le_ratio(n, d),
                forall|j: int| hi <= j < len ==> !(#[trigger] offsets[j]).le_ratio(n, d),
            decreases hi - lo,
        {
            let mid = lo + (hi - lo) / 2;
            let order = self.keyframes[mid].offset.compare_ratio(numerator, denominator);
            assert(offsets[mid as int] == self.spec_keyframes()[mid as int].offset);
            match order {
                RatioOrder::Above => {
                    assert forall|j: int| mid <= j < len implies !(#[trigger] offsets[j]).le_ratio(n, d) by {
                        if j > mid && offsets[j].le_ratio(n, d) {
                            lemma_increasing_pairwise(offsets, len as int, mid as int, j);
                            lemma_le_through_lt(offsets[mid as int], offsets[j], n, d);
                        }
                    }
                    hi = mid;
                },
                _ => {
                    assert forall|j: int| 0 <= j < mid + 1 implies (#[trigger] offsets[j]).le_ratio(n, d) by {
                        if j < mid {
                            lemma_increasing_pairwise(offsets, len as int, j, mid as int);
                            lemma_le_through_lt(offsets[j], offsets[mid as int], n, d);
                        }
                    }
                    lo = mid + 1;
                },
            }
        }
        assert(offsets[0].le_ratio(n, d)) by {
            assert(offsets[0].num() == 0);
            assert(0 <= n * offsets[0].den()) by (nonlinear_arith)
                requires
                    n >= 0,
                    offsets[0].den() > 0,
            ;
        }
        let index = lo - 1;
        proof {
            assert(holds_at(offsets, index as int, n, d));
            let c = choose|r: int| holds_at(offsets, r, n, d);
            assert(holds_at(offsets, c, n, d));
            if c < index {
                lemma_increasing_pairwise(offsets, len as int, c + 1, index as int);
                if c + 1 < index {
                    lemma_le_through_lt(offsets[c + 1], offsets[index as int], n, d);
                }
            }
            if c > index {
                lemma_increasing_pairwise(offsets, len as int, index + 1, c);
                if index + 1 < c {
                    lemma_le_through_lt(offsets[index + 1], offsets[c], n, d);
                }
            }
        }
        index
    }

    /// The value held at active progress `numerator / denominator`: the last
    /// keyframe whose offset does not exceed the progress.
    pub fn sample(&self, numerator: u64, denominator: u64) -> (value: &V)
        requires
            self.wf(),
            denominator > 0,
            numerator < denominator,
        ensures
            *value == self.spec_keyframes()[self.spec_sample_index(numerator as int, denominator as int)].value,
    {
        let index = self.sample_index(numerator, denominator);
        &self.keyframes[index].value
    }
}

// ── path topology ──────────────────────────────────────────────────────────

/// The command vocabulary of a normalized path.
#[derive(Debug, Clone, Copy, PartialEq, Eq, Hash, Structural)]
pub enum PathCommandKind {
    MoveTo,
    LineTo,
    QuadTo,
    CubicTo,
    ConicTo,
    Close,
}

#[derive(Debug, Clone, PartialEq, Eq)]
pub enum PathCurveError {
    FirstOffsetMustBeZero { actual: KeyframeOffset },
    LastOffsetMustBeOne { actual: KeyframeOffset },
    OffsetsNotStrictlyIncreasing {
        previous_index: usize,
        current_index: usize,
        previous: KeyframeOffset,
        current: KeyframeOffset,
    },
    InvalidPath { keyframe_index: usize, reason: String },
    DifferentTopology { keyframe_index: usize },
    ConicNotInterpolable { keyframe_index: usize, command_index: usize },
    UnsafeCubicControl { segment_index: usize, control: CubicControl },
}

/// Command `i` prevents component-wise interpolation.
pub open spec fn command_conflict(first: Seq<PathCommandKind>, candidate: Seq<PathCommandKind>, i: int) -> bool {
    first[i] == PathCommandKind::ConicTo || candidate[i] == PathCommandKind::ConicTo || first[i] != candidate[i]
}

/// Why `candidate` cannot interpolate with `first`, if it cannot.
pub open spec fn topology_error(first: Seq<PathCommandKind>, candidate: Seq<PathCommandKind>, keyframe_index: usize) -> Option<PathCurveError> {
    if first.len() != candidate.len() {
        Some(PathCurveError::DifferentTopology { keyframe_index })
    } else {
        match first_index(|i: int| command_conflict(first, candidate, i), 0, first.len() as int) {
            None => None,
            Some(i) => if first[i] == PathCommandKind::ConicTo || candidate[i] == PathCommandKind::ConicTo {
                Some(PathCurveError::ConicNotInterpolable { keyframe_index, command_index: i as usize })
            } else {
                Some(PathCurveError::DifferentTopology { keyframe_index })
            },
        }
    }
}

/// Two normalized paths interpolate only with equal command sequences and no
/// rational conic: a lowered arc is not smoothly interpolable.
pub fn validate_path_topology(
    first: &Vec<PathCommandKind>,
    candidate: &Vec<PathCommandKind>,
    keyframe_index: usize,
) -> (result: Result<(), PathCurveError>)
    ensures
        match result {
            Ok(()) => topology_error(first@, candidate@, keyframe_index) is None,
            Err(e) => topology_error(first@, candidate@, keyframe_index) == Some(e),
        },
{
    if first.len() != candidate.len() {
        return Err(PathCurveError::DifferentTopology { keyframe_index });
    }
    let ghost p = |i: int| command_conflict(first@, candidate@, i);
    let mut i: usize = 0;
    while i < first.len()
        invariant
            i <= first@.len(),
            first@.len() == candidate@.len(),
            p == (|i: int| command_conflict(first@, candidate@, i)),
            forall|j: int| 0 <= j < i ==> !#[trigger] p(j),
        decreases first@.len() - i,
    {
        let left = first[i];
        let right = candidate[i];
        if left == PathCommandKind::ConicTo || right == PathCommandKind::ConicTo {
            proof {
                lemma_first_index(p, 0, first@.len() as int, i as int);
            }
            return Err(PathCurveError::ConicNotInterpolable { keyframe_index, command_index: i });
        }
        if left != right {
            proof {
                lemma_first_index(p, 0, first@.len() as int, i as int);
            }
            return Err(PathCurveError::DifferentTopology { keyframe_index });
        }
        i += 1;
    }
    proof {
        lemma_first_index_none(p, 0, first@.len() as int);
    }
    Ok(())
}

// ── path curves ────────────────────────────────────────────────────────────

/// What a path curve reads of one path geometry: its normalized command
/// sequence, which decides whether two paths interpolate, and why the
/// geometry fails validation, if it does.
#[derive(Debug, Clone, PartialEq, Eq)]
pub struct PathFacts {
    pub commands: Vec<PathCommandKind>,
    pub validation_error: Option<String>,
}

/// One keyframe of a path curve: an exact offset and its path.
#[derive(Debug, Clone, PartialEq, Eq)]
pub struct PathKeyframe {
    pub offset: KeyframeOffset,
    pub path: PathFacts,
}

impl PathKeyframe {
    pub fn new(offset: KeyframeOffset, path: PathFacts) -> (keyframe: Self)
        ensures
            keyframe == (PathKeyframe { offset, path }),
    {
        PathKeyframe { offset, path }
    }
}

#[derive(Debug, Clone, PartialEq, Eq)]
pub struct PathSegment {
    pub easing: Easing,
    pub end: PathKeyframe,
}

impl PathSegment {
    pub fn new(easing: Easing, end: PathKeyframe) -> (segment: Self)
        ensures
            segment == (PathSegment { easing, end }),
    {
        PathSegment { easing, end }
    }
}

/// A keyframed path whose keyframes are valid and share one interpolable
/// topology.
#[derive(Debug, Clone, PartialEq, Eq)]
pub struct PathCurve {
    first: PathKeyframe,
    segments: Vec<PathSegment>,
}

/// The offset of keyframe `k`: the first keyframe, then each segment end.
pub open spec fn path_keyframe_offset(first: PathKeyframe, segments: Seq<PathSegment>, k: int) -> KeyframeOffset {
    if k == 0 {
        first.offset
    } else {
        segments[k - 1].end.offset
    }
}

/// What segment `i` is refused for, checked in order: its end path's
/// validity, its topology against the first keyframe, its timing controls,
/// then its offset against the previous keyframe's.
pub open spec fn path_segment_error(first: PathKeyframe, segments: Seq<PathSegment>, i: int) -> Option<
    PathCurveError,
> {
    let segment = segments[i];
    if segment.end.path.validation_error is Some {
        Some(
            PathCurveError::InvalidPath {
                keyframe_index: (i + 1) as usize,
                reason: segment.end.path.validation_error.unwrap(),
            },
        )
    } else {
        match topology_error(first.path.commands@, segment.end.path.commands@, (i + 1) as usize) {
            Some(error) => Some(error),
            None => match unsafe_y_control(segment.easing) {
                Some(control) => Some(PathCurveError::UnsafeCubicControl { segment_index: i as usize, control }),
                None => {
                    let previous = path_keyframe_offset(first, segments, i);
                    let current = segment.end.offset;
                    if !previous.lt(current) {
                        Some(
                            PathCurveError::OffsetsNotStrictlyIncreasing {
                                previous_index: i as usize,
                                current_index: (i + 1) as usize,
                                previous,
                                current,
                            },
                        )
                    } else {
                        None
                    }
                },
            },
        }
    }
}

/// The outcome `PathCurve::new` owes for `first` and `segments`: `None`
/// when they form a valid curve.
pub open spec fn path_curve_error(first: PathKeyframe, segments: Seq<PathSegment>) -> Option<PathCurveError> {
    if first.path.validation_error is Some {
        Some(PathCurveError::InvalidPath { keyframe_index: 0, reason: first.path.validation_error.unwrap() })
    } else {
        match topology_error(first.path.commands@, first.path.commands@, 0) {
            Some(error) => Some(error),
            None => if segments.len() == 0 {
                None
            } else if !first.offset.is_zero() {
                Some(PathCurveError::FirstOffsetMustBeZero { actual: first.offset })
            } else {
                match first_index(
                    |i: int| path_segment_error(first, segments, i) is Some,
                    0,
                    segments.len() as int,
                ) {
                    Some(i) => path_segment_error(first, segments, i),
                    None => if !segments.last().end.offset.is_one() {
                        Some(PathCurveError::LastOffsetMustBeOne { actual: segments.last().end.offset })
                    } else {
                        None
                    },
                }
            },
        }
    }
}

impl PathCurve {
    pub closed spec fn spec_first(&self) -> PathKeyframe {
        self.first
    }

    pub closed spec fn spec_segments(&self) -> Seq<PathSegment> {
        self.segments@
    }

    /// A validated path schedule: every keyframe path validates and
    /// interpolates with the first (equal commands, no conic), every timing
    /// control stays in the unit interval, and with any segment the offsets
    /// start at zero, increase strictly and end at one; a single keyframe
    /// sits at offset zero.
    pub fn new(first: PathKeyframe, segments: Vec<PathSegment>) -> (curve: Result<Self, PathCurveError>)
        ensures
            match curve {
                Err(e) => path_curve_error(first, segments@) == Some(e),
                Ok(c) => path_curve_error(first, segments@) is None && c.spec_first().path == first.path
                    && c.spec_segments() == segments@ && (if segments@.len() == 0 {
                    c.spec_first().offset.is_zero() && c.spec_first().offset.wf()
                } else {
                    c.spec_first().offset == first.offset
                }),
            },
    {
        if first.path.validation_error.is_some() {
            let first = first;
            return Err(PathCurveError::InvalidPath { keyframe_index: 0, reason: first.path.validation_error.unwrap() });
        }
        match validate_path_topology(&first.path.commands, &first.path.commands, 0) {
            Err(error) => return Err(error),
            Ok(()) => {},
        }
        if segments.len() == 0 {
            return Ok(PathCurve { first: PathKeyframe::new(KeyframeOffset::zero(), first.path), segments });
        }
        if !first.offset.is_zero_exec() {
            return Err(PathCurveError::FirstOffsetMustBeZero { actual: first.offset });
        }
        let ghost p = |i: int| path_segment_error(first, segments@, i) is Some;
        let mut previous = first.offset;
        let mut i: usize = 0;
        while i < segments.len()
            invariant
                i <= segments@.len(),
                segments@.len() > 0,
                first.path.validation_error is None,
                topology_error(first.path.commands@, first.path.commands@, 0) is None,
                first.offset.is_zero(),
                previous == path_keyframe_offset(first, segments@, i as int),
                p == (|i: int| path_segment_error(first, segments@, i) is Some),
                forall|j: int| 0 <= j < i ==> !#[trigger] p(j),
            decreases segments@.len() - i,
        {
            if segments[i].end.path.validation_error.is_some() {
                proof {
                    lemma_first_index(p, 0, segments@.len() as int, i as int);
                }
                let mut segments = segments;
                let segment = segments.remove(i);
                return Err(
                    PathCurveError::InvalidPath { keyframe_index: i + 1, reason: segment.end.path.validation_error.unwrap() },
                );
            }
            let segment = &segments[i];
            let failure = match validate_path_topology(&first.path.commands, &segment.end.path.commands, i + 1) {
                Err(error) => Some(error),
                Ok(()) => match find_unsafe_y_control(&segment.easing) {
                    Some(control) => Some(PathCurveError::UnsafeCubicControl { segment_index: i, control }),
                    None => {
                        let current = segment.end.offset;
                        if !previous.less_than(current) {
                            Some(
                                PathCurveError::OffsetsNotStrictlyIncreasing {
                                    previous_index: i,
                                    current_index: i + 1,
                                    previous,
                                    current,
                                },
                            )
                        } else {
                            None
                        }
                    },
                },
            };
            assert(failure == path_segment_error(first, segments@, i as int));
            if let Some(error) = failure {
                proof {
                    lemma_first_index(p, 0, segments@.len() as int, i as int);
                }
                return Err(error);
            }
            previous = segment.end.offset;
            i += 1;
        }
        proof {
            lemma_first_index_none(p, 0, segments@.len() as int);
        }
        if !previous.is_one_exec() {
            return Err(PathCurveError::LastOffsetMustBeOne { actual: previous });
        }
        Ok(PathCurve { first, segments })
    }

    /// Interpolate `from` to `to` over the whole curve.
    pub fn linear(from: PathFacts, to: PathFacts) -> (curve: Result<Self, PathCurveError>)
        ensures
            match curve {
                Err(e) => path_curve_error(
                    PathKeyframe { offset: KeyframeOffset::spec_zero(), path: from },
                    seq![PathSegment { easing: Easing::Linear, end: PathKeyframe { offset: KeyframeOffset::spec_one(), path: to } }],
                ) == Some(e),
                Ok(c) => c.spec_first().path == from && c.spec_first().offset.is_zero()
                    && c.spec_segments().len() == 1 && c.spec_segments()[0].easing == Easing::Linear
                    && c.spec_segments()[0].end.path == to && c.spec_segments()[0].end.offset.is_one(),
            },
    {
        let mut segments: Vec<PathSegment> = Vec::new();
        segments.push(PathSegment::new(Easing::Linear, PathKeyframe::new(KeyframeOffset::one(), to)));
        Self::new(PathKeyframe::new(KeyframeOffset::zero(), from), segments)
    }

    /// One path at every offset.
    pub fn constant(path: PathFacts) -> (curve: Result<Self, PathCurveError>)
        ensures
            match curve {
                Err(e) => path_curve_error(
                    PathKeyframe { offset: KeyframeOffset::spec_zero(), path },
                    Seq::<PathSegment>::empty(),
                ) == Some(e),
                Ok(c) => c.spec_first().path == path && c.spec_first().offset.is_zero()
                    && c.spec_segments().len() == 0,
            },
    {
        Self::new(PathKeyframe::new(KeyframeOffset::zero(), path), Vec::new())
    }

    pub fn first(&self) -> (first: &PathKeyframe)
        ensures
            *first == self.spec_first(),
    {
        &self.first
    }

    pub fn segments(&self) -> (segments: &[PathSegment])
        ensures
            segments@ == self.spec_segments(),
    {
        self.segments.as_slice()
    }

    pub fn keyframe_count(&self) -> (count: usize)
        requires
            self.spec_segments().len() < usize::MAX,
        ensures
            count == 1 + self.spec_segments().len(),
    {
        1 + self.segments.len()
    }

    pub fn first_path(&self) -> (path: &PathFacts)
        ensures
            *path == self.spec_first().path,
    {
        &self.first.path
    }

    /// The last keyframe's path: the final segment's end, or the first
    /// keyframe's without segments.
    pub fn last_path(&self) -> (path: &PathFacts)
        ensures
            *path == (if self.spec_segments().len() == 0 {
                self.spec_first().path
            } else {
                self.spec_segments().last().end.path
            }),
    {
        if self.segments.len() == 0 {
            &self.first.path
        } else {
            &self.segments[self.segments.len() - 1].end.path
        }
    }
}

// ── transform curves ───────────────────────────────────────────────────────

/// What a transform curve reads of one transform value: its kind, and
/// whether every one of its components is finite.
#[derive(Debug, Clone, Copy, PartialEq, Eq, Hash, Structural)]
pub struct TransformFacts {
    pub kind: TransformKind,
    pub finite: bool,
}

/// One keyframe of a lens-transform curve: an exact offset and its value.
#[derive(Debug, Clone, Copy, PartialEq, Eq, Hash, Structural)]
pub struct TransformKeyframe {
    pub offset: KeyframeOffset,
    pub value: TransformFacts,
}

#[derive(Debug, Clone, Copy, PartialEq, Eq, Hash, Structural)]
pub struct TransformSegment {
    pub easing: Easing,
    pub end: TransformKeyframe,
}

#[derive(Debug, Clone, Copy, PartialEq, Eq, Hash, Structural)]
pub enum TransformCurveError {
    FirstOffsetMustBeZero { actual: KeyframeOffset },
    LastOffsetMustBeOne { actual: KeyframeOffset },
    OffsetsNotStrictlyIncreasing {
        previous_index: usize,
        current_index: usize,
        previous: KeyframeOffset,
        current: KeyframeOffset,
    },
    MixedKinds { expected: TransformKind, keyframe_index: usize, actual: TransformKind },
    NonFiniteValue { keyframe_index: usize },
}

/// A keyframed transform of one kind.
#[derive(Debug, Clone, PartialEq, Eq)]
pub struct TransformCurve {
    first: TransformKeyframe,
    segments: Vec<TransformSegment>,
}

/// What segment `i` is refused for, checked in order: a kind other than the
/// first keyframe's, a non-finite value, then an offset no later than the
/// previous keyframe's.
pub open spec fn transform_segment_error(first: TransformKeyframe, segments: Seq<TransformSegment>, i: int) -> Option<
    TransformCurveError,
> {
    let end = segments[i].end;
    let previous = if i == 0 {
        first.offset
    } else {
        segments[i - 1].end.offset
    };
    if end.value.kind != first.value.kind {
        Some(TransformCurveError::MixedKinds { expected: first.value.kind, keyframe_index: (i + 1) as usize, actual: end.value.kind })
    } else if !end.value.finite {
        Some(TransformCurveError::NonFiniteValue { keyframe_index: (i + 1) as usize })
    } else if !previous.lt(end.offset) {
        Some(
            TransformCurveError::OffsetsNotStrictlyIncreasing {
                previous_index: i as usize,
                current_index: (i + 1) as usize,
                previous,
                current: end.offset,
            },
        )
    } else {
        None
    }
}

/// The outcome `TransformCurve::new` owes for `first` and `segments`:
/// `None` when they form a valid curve.
pub open spec fn transform_curve_error(first: TransformKeyframe, segments: Seq<TransformSegment>) -> Option<
    TransformCurveError,
> {
    if !first.value.finite {
        Some(TransformCurveError::NonFiniteValue { keyframe_index: 0 })
    } else if segments.len() == 0 {
        None
    } else if !first.offset.is_zero() {
        Some(TransformCurveError::FirstOffsetMustBeZero { actual: first.offset })
    } else {
        match first_index(|i: int| transform_segment_error(first, segments, i) is Some, 0, segments.len() as int) {
            Some(i) => transform_segment_error(first, segments, i),
            None => if !segments.last().end.offset.is_one() {
                Some(TransformCurveError::LastOffsetMustBeOne { actual: segments.last().end.offset })
            } else {
                None
            },
        }
    }
}

impl TransformCurve {
    pub closed spec fn spec_first(&self) -> TransformKeyframe {
        self.first
    }

    pub closed spec fn spec_segments(&self) -> Seq<TransformSegment> {
        self.segments@
    }

    /// A validated transform schedule: finite values of one kind, and with
    /// any segment offsets that start at zero, increase strictly and end at
    /// one; a single keyframe sits at offset zero.
    #[verifier::spinoff_prover]
    #[verifier::rlimit(40)]
    pub fn new(first: TransformKeyframe, segments: Vec<TransformSegment>) -> (curve: Result<Self, TransformCurveError>)
        ensures
            match curve {
                Err(e) => transform_curve_error(first, segments@) == Some(e),
                Ok(c) => transform_curve_error(first, segments@) is None && c.spec_first().value == first.value && c.spec_segments() == segments@ && (if segments@.len() == 0 {
                    c.spec_first().offset.is_zero() && c.spec_first().offset.wf()
                } else {
                    c.spec_first() == first
                }) && is_transform_schedule(c.spec_first(), c.spec_segments()),
            },
    {
        if !first.value.finite {
            return Err(TransformCurveError::NonFiniteValue { keyframe_index: 0 });
        }
        if segments.len() == 0 {
            let lone = TransformKeyframe { offset: KeyframeOffset::zero(), value: first.value };
            let curve = TransformCurve { first: lone, segments };
            proof {
                lemma_accepted_transform_curve(first, curve.segments@, curve);
            }
            return Ok(curve);
        }
        if !first.offset.is_zero_exec() {
            return Err(TransformCurveError::FirstOffsetMustBeZero { actual: first.offset });
        }
        let ghost p = |i: int| transform_segment_error(first, segments@, i) is Some;
        let mut previous = first.offset;
        let mut i: usize = 0;
        while i < segments.len()
            invariant
                i <= segments@.len(),
                segments@.len() > 0,
                first.value.finite,
                first.offset.is_zero(),
                previous == (if i == 0 {
                    first.offset
                } else {
                    segments@[i - 1].end.offset
                }),
                p == (|i: int| transform_segment_error(first, segments@, i) is Some),
                forall|j: int| 0 <= j < i ==> !#[trigger] p(j),
            decreases segments@.len() - i,
        {
            let end = segments[i].end;
            let failure = if end.value.kind != first.value.kind {
                Some(TransformCurveError::MixedKinds { expected: first.value.kind, keyframe_index: i + 1, actual: end.value.kind })
            } else if !end.value.finite {
                Some(TransformCurveError::NonFiniteValue { keyframe_index: i + 1 })
            } else if !previous.less_than(end.offset) {
                Some(
                    TransformCurveError::OffsetsNotStrictlyIncreasing {
                        previous_index: i,
                        current_index: i + 1,
                        previous,
                        current: end.offset,
                    },
                )
            } else {
                None
            };
            assert(failure == transform_segment_error(first, segments@, i as int));
            if let Some(error) = failure {
                proof {
                    lemma_first_index(p, 0, segments@.len() as int, i as int);
                }
                return Err(error);
            }
            previous = end.offset;
            i += 1;
        }
        proof {
            lemma_first_index_none(p, 0, segments@.len() as int);
        }
        if !previous.is_one_exec() {
            return Err(TransformCurveError::LastOffsetMustBeOne { actual: previous });
        }
        let curve = TransformCurve { first, segments };
        proof {
            lemma_accepted_transform_curve(first, curve.segments@, curve);
        }
        Ok(curve)
    }

    /// Interpolate `from` to `to` over the whole curve.
    pub fn linear(from: TransformFacts, to: TransformFacts) -> (curve: Result<Self, TransformCurveError>)
        ensures
            match curve {
                Err(e) => transform_curve_error(
                    TransformKeyframe { offset: KeyframeOffset::spec_zero(), value: from },
                    seq![TransformSegment { easing: Easing::Linear, end: TransformKeyframe { offset: KeyframeOffset::spec_one(), value: to } }],
                ) == Some(e),
                Ok(c) => c.spec_first().value == from && c.spec_first().offset.is_zero()
                    && c.spec_segments().len() == 1 && c.spec_segments()[0].easing == Easing::Linear
                    && c.spec_segments()[0].end.value == to && c.spec_segments()[0].end.offset.is_one(),
            },
    {
        let mut segments: Vec<TransformSegment> = Vec::new();
        segments.push(TransformSegment { easing: Easing::Linear, end: TransformKeyframe { offset: KeyframeOffset::one(), value: to } });
        Self::new(TransformKeyframe { offset: KeyframeOffset::zero(), value: from }, segments)
    }

    /// One value at every offset.
    pub fn constant(value: TransformFacts) -> (curve: Result<Self, TransformCurveError>)
        ensures
            !value.finite ==> curve == Err::<Self, TransformCurveError>(TransformCurveError::NonFiniteValue { keyframe_index: 0 }),
            value.finite ==> (curve matches Ok(c) && c.spec_first().value == value && c.spec_first().offset.is_zero()
                && c.spec_segments().len() == 0),
    {
        Self::new(TransformKeyframe { offset: KeyframeOffset::zero(), value }, Vec::new())
    }

    pub fn keyframe_count(&self) -> (count: usize)
        requires
            self.spec_segments().len() < usize::MAX,
        ensures
            count == 1 + self.spec_segments().len(),
    {
        1 + self.segments.len()
    }

    /// The kind every keyframe of the curve shares.
    pub fn kind(&self) -> (kind: TransformKind)
        ensures
            kind == self.spec_first().value.kind,
    {
        self.first.value.kind
    }

    /// The last keyframe's value: the final segment's end, or the first
    /// keyframe's without segments.
    pub fn last_value(&self) -> (value: TransformFacts)
        ensures
            value == (if self.spec_segments().len() == 0 {
                self.spec_first().value
            } else {
                self.spec_segments().last().end.value
            }),
    {
        if self.segments.len() == 0 {
            self.first.value
        } else {
            self.segments[self.segments.len() - 1].end.value
        }
    }

    pub fn first(&self) -> (first: TransformKeyframe)
        ensures
            first == self.spec_first(),
    {
        self.first
    }

    pub fn segments(&self) -> (segments: &[TransformSegment])
        ensures
            segments@ == self.spec_segments(),
    {
        self.segments.as_slice()
    }
}

proof fn lemma_no_segment_error(first: TransformKeyframe, segments: Seq<TransformSegment>, i: int)
    requires
        transform_curve_error(first, segments) is None,
        segments.len() > 0,
        0 <= i < segments.len(),
    ensures
        transform_segment_error(first, segments, i) is None,
{
    let p = |k: int| transform_segment_error(first, segments, k) is Some;
    if p(i) {
        lemma_first_index_some(p, 0, segments.len() as int, i);
    }
}

/// A valid transform schedule holds finite values of one kind at offsets
/// that start at zero, increase strictly and end at one.
#[verifier::spinoff_prover]
#[verifier::rlimit(60)]
pub proof fn lemma_valid_transform_schedule(first: TransformKeyframe, segments: Seq<TransformSegment>)
    requires
        transform_curve_error(first, segments) is None,
        segments.len() > 0,
    ensures
        first.value.finite,
        first.offset.is_zero(),
        segments.last().end.offset.is_one(),
        forall|i: int|
            0 <= i < segments.len() ==> (#[trigger] segments[i]).end.value.kind == first.value.kind
                && segments[i].end.value.finite,
        forall|i: int|
            0 <= i < segments.len() ==> (if i == 0 {
                first.offset
            } else {
                segments[i - 1].end.offset
            }).lt((#[trigger] segments[i]).end.offset),
{
    assert forall|i: int| 0 <= i < segments.len() implies (#[trigger] segments[i]).end.value.kind
        == first.value.kind && segments[i].end.value.finite && (if i == 0 {
        first.offset
    } else {
        segments[i - 1].end.offset
    }).lt(segments[i].end.offset) by {
        lemma_no_segment_error(first, segments, i);
    }
}


/// The schedule of an accepted transform curve: every keyframe value is
/// finite and of the first keyframe's kind, the first keyframe sits at zero,
/// offsets increase strictly, and a curve with segments ends at one.
pub open spec fn is_transform_schedule(first: TransformKeyframe, segments: Seq<TransformSegment>) -> bool {
    &&& first.value.finite
    &&& first.offset.is_zero()
    &&& segments.len() > 0 ==> segments.last().end.offset.is_one()
    &&& forall|i: int|
        0 <= i < segments.len() ==> (#[trigger] segments[i]).end.value.kind == first.value.kind
            && segments[i].end.value.finite
    &&& forall|i: int|
        0 <= i < segments.len() ==> (if i == 0 {
            first.offset
        } else {
            segments[i - 1].end.offset
        }).lt((#[trigger] segments[i]).end.offset)
}

/// A curve the transform constructor accepted holds finite values of the
/// curve's kind at offsets that start at zero and increase strictly; with
/// segments the last offset is one, and a lone keyframe sits at zero.
pub proof fn lemma_accepted_transform_curve(first: TransformKeyframe, segments: Seq<TransformSegment>, curve: TransformCurve)
    requires
        transform_curve_error(first, segments) is None,
        curve.spec_first().value == first.value,
        curve.spec_segments() == segments,
        if segments.len() == 0 {
            curve.spec_first().offset.is_zero()
        } else {
            curve.spec_first() == first
        },
    ensures
        is_transform_schedule(curve.spec_first(), curve.spec_segments()),
{
    if segments.len() > 0 {
        lemma_valid_transform_schedule(first, segments);
    }
}

/// A cubic easing is safe for property-space interpolation exactly when both
/// `y` controls lie in the closed unit interval, and a refusal names the
/// first control outside it: `y1` whenever `y1` is outside, otherwise `y2`.
/// Linear easing is always safe.
pub proof fn lemma_unsafe_y_control_names_the_first_overshoot(c: CubicBezier)
    ensures
        unsafe_y_control(Easing::Linear) is None,
        unsafe_y_control(Easing::CubicBezier(c)) is None <==> (0 <= c.spec_y1().num() <= c.spec_y1().den() && 0
            <= c.spec_y2().num() <= c.spec_y2().den()),
        !(0 <= c.spec_y1().num() <= c.spec_y1().den()) ==> unsafe_y_control(Easing::CubicBezier(c)) == Some(
            CubicControl::Y1,
        ),
        (0 <= c.spec_y1().num() <= c.spec_y1().den()) && !(0 <= c.spec_y2().num() <= c.spec_y2().den())
            ==> unsafe_y_control(Easing::CubicBezier(c)) == Some(CubicControl::Y2),
{
}

} // verus!
