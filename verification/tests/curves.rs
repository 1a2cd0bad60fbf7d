use n0::curves::{
    validate_path_topology, ColorCurve, ColorCurveError, ColorKeyframe, ColorSegment,
    ControlValue, CubicBezier, CubicBezierError, CubicControl, DiscreteCurve, DiscreteCurveError,
    DiscreteKeyframe, Easing, PathCommandKind, PathCurve, PathCurveError, PathFacts, PathKeyframe, PathSegment,
    TransformCurve, TransformCurveError, TransformFacts, TransformKeyframe, TransformSegment,
};
use n0::animation::TransformKind;
use n0::keyframes::{KeyframeOffset, KeyframeOffsetError, RatioOrder};
use n0::paint::Color;
use n0::properties::PropertyValueKind;

fn offset(n: u64, d: u64) -> KeyframeOffset {
    KeyframeOffset::new(n, d).expect("valid test offset")
}

#[test]
fn keyframe_offsets_are_exact_unit_rationals() {
    assert_eq!(KeyframeOffset::new(1, 0), Err(KeyframeOffsetError::ZeroDenominator));
    assert_eq!(KeyframeOffset::new(3, 2), Err(KeyframeOffsetError::GreaterThanOne));
    let half = offset(1, 2);
    assert_eq!((half.numerator(), half.denominator()), (1, 2));
    assert!(offset(1, 3).less_than(half));
    assert!(!offset(2, 4).less_than(half));
    assert!(!half.less_than(offset(2, 4)));
    assert_eq!(half.compare_ratio(1, 3), RatioOrder::Above);
    assert_eq!(half.compare_ratio(5, 10), RatioOrder::Equal);
    assert_eq!(half.compare_ratio(2, 3), RatioOrder::Below);
    assert!(offset(u64::MAX - 1, u64::MAX).less_than(KeyframeOffset::one()));
    assert!(KeyframeOffset::zero().is_zero_exec());
    assert!(offset(7, 7).is_one_exec());
}

fn red() -> Color {
    Color(0xFFFF_0000)
}

fn segment(end: KeyframeOffset, color: u32) -> ColorSegment {
    ColorSegment::new(Easing::Linear, ColorKeyframe::new(end, Color(color)))
}

#[test]
fn color_curve_schedule_is_validated_in_order() {
    let first = ColorKeyframe::new(KeyframeOffset::zero(), red());
    let valid = ColorCurve::new(
        first,
        vec![segment(offset(1, 2), 0xFF00_FF00), segment(KeyframeOffset::one(), 0xFF00_00FF)],
    )
    .expect("valid color schedule");
    assert_eq!(valid.keyframe_count(), 3);
    assert_eq!(valid.first_color(), red());
    assert_eq!(valid.last_color(), Color(0xFF00_00FF));

    let late_start = ColorKeyframe::new(offset(1, 4), red());
    assert_eq!(
        ColorCurve::new(late_start, vec![segment(KeyframeOffset::one(), 0)]),
        Err(ColorCurveError::FirstOffsetMustBeZero { actual: offset(1, 4) })
    );
    assert_eq!(
        ColorCurve::new(
            first,
            vec![
                segment(offset(1, 2), 1),
                segment(offset(2, 4), 2),
                segment(KeyframeOffset::one(), 3)
            ]
        ),
        Err(ColorCurveError::OffsetsNotStrictlyIncreasing {
            previous_index: 1,
            current_index: 2,
            previous: offset(1, 2),
            current: offset(2, 4),
        })
    );
    assert_eq!(
        ColorCurve::new(first, vec![segment(offset(0, 3), 1)]),
        Err(ColorCurveError::OffsetsNotStrictlyIncreasing {
            previous_index: 0,
            current_index: 1,
            previous: KeyframeOffset::zero(),
            current: offset(0, 3),
        })
    );
    assert_eq!(
        ColorCurve::new(first, vec![segment(offset(3, 4), 1)]),
        Err(ColorCurveError::LastOffsetMustBeOne { actual: offset(3, 4) })
    );
}

#[test]
fn a_segmentless_color_curve_is_constant_at_offset_zero() {
    let curve = ColorCurve::new(ColorKeyframe::new(offset(1, 3), red()), vec![])
        .expect("constant curve");
    assert_eq!(curve.first().offset, KeyframeOffset::zero());
    assert_eq!(curve.segments().len(), 0);
    assert_eq!(curve.last_color(), red());
    let linear = ColorCurve::linear(red(), Color(0xFF00_00FF));
    assert_eq!(linear.first_color(), red());
    assert_eq!(linear.last_color(), Color(0xFF00_00FF));
    assert_eq!(ColorCurve::constant(red()).keyframe_count(), 1);
}

fn keyframe(n: u64, d: u64, value: &'static str) -> DiscreteKeyframe<&'static str> {
    DiscreteKeyframe::new(offset(n, d), PropertyValueKind::PathGeometry, value)
}

#[test]
fn discrete_curve_holds_until_the_next_offset() {
    let curve = DiscreteCurve::new(vec![
        keyframe(0, 1, "a"),
        keyframe(1, 4, "b"),
        keyframe(3, 4, "c"),
    ])
    .expect("valid discrete schedule");
    assert_eq!(*curve.sample(0, 10), "a");
    assert_eq!(*curve.sample(24, 100), "a");
    assert_eq!(*curve.sample(1, 4), "b");
    assert_eq!(*curve.sample(74, 100), "b");
    assert_eq!(*curve.sample(3, 4), "c");
    assert_eq!(*curve.sample(99, 100), "c");
    assert_eq!(curve.sample_index(2, 8), 1);
    assert_eq!(*curve.first_value(), "a");
    assert_eq!(*curve.last_value(), "c");
}

#[test]
fn a_single_discrete_keyframe_holds_everywhere() {
    let curve = DiscreteCurve::new(vec![keyframe(1, 2, "only")]).expect("single keyframe");
    assert_eq!(curve.keyframes()[0].offset, KeyframeOffset::zero());
    assert_eq!(*curve.sample(0, 1), "only");
    assert_eq!(*curve.sample(9, 10), "only");
}

#[test]
fn discrete_schedule_refusals_name_the_first_fault() {
    assert_eq!(
        DiscreteCurve::<&str>::new(vec![]),
        Err(DiscreteCurveError::Empty)
    );
    let mixed = vec![
        keyframe(0, 1, "a"),
        DiscreteKeyframe::new(offset(1, 2), PropertyValueKind::Number, "b"),
        DiscreteKeyframe::new(offset(1, 3), PropertyValueKind::Paints, "c"),
    ];
    assert_eq!(
        DiscreteCurve::new(mixed),
        Err(DiscreteCurveError::MixedValueKind {
            keyframe_index: 1,
            expected: PropertyValueKind::PathGeometry,
            actual: PropertyValueKind::Number,
        })
    );
    assert_eq!(
        DiscreteCurve::new(vec![keyframe(1, 5, "a"), keyframe(1, 2, "b")]),
        Err(DiscreteCurveError::FirstOffsetMustBeZero { actual: offset(1, 5) })
    );
    assert_eq!(
        DiscreteCurve::new(vec![keyframe(0, 1, "a"), keyframe(1, 2, "b"), keyframe(1, 3, "c")]),
        Err(DiscreteCurveError::OffsetsNotStrictlyIncreasing {
            previous_index: 1,
            current_index: 2,
            previous: offset(1, 2),
            current: offset(1, 3),
        })
    );
}

#[test]
fn path_topology_requires_equal_commands_without_conics() {
    let first = vec![PathCommandKind::MoveTo, PathCommandKind::LineTo, PathCommandKind::CubicTo, PathCommandKind::Close];
    assert_eq!(validate_path_topology(&first, &first.clone(), 1), Ok(()));
    assert_eq!(
        validate_path_topology(&first, &vec![PathCommandKind::MoveTo, PathCommandKind::LineTo, PathCommandKind::Close], 2),
        Err(PathCurveError::DifferentTopology { keyframe_index: 2 })
    );
    assert_eq!(
        validate_path_topology(&first, &vec![PathCommandKind::MoveTo, PathCommandKind::QuadTo, PathCommandKind::CubicTo, PathCommandKind::Close], 3),
        Err(PathCurveError::DifferentTopology { keyframe_index: 3 })
    );
    assert_eq!(
        validate_path_topology(&vec![PathCommandKind::MoveTo, PathCommandKind::ConicTo], &vec![PathCommandKind::MoveTo, PathCommandKind::ConicTo], 0),
        Err(PathCurveError::ConicNotInterpolable {
            keyframe_index: 0,
            command_index: 1
        })
    );
    assert_eq!(
        validate_path_topology(&vec![PathCommandKind::MoveTo, PathCommandKind::LineTo, PathCommandKind::LineTo], &vec![PathCommandKind::MoveTo, PathCommandKind::QuadTo, PathCommandKind::ConicTo], 4),
        Err(PathCurveError::DifferentTopology { keyframe_index: 4 })
    );
}

fn control(n: i64, d: u64) -> ControlValue {
    ControlValue::new(n, d).expect("valid control")
}

#[test]
fn cubic_bezier_time_controls_stay_in_the_unit_interval() {
    assert!(ControlValue::new(1, 0).is_none());
    assert_eq!(
        CubicBezier::new(control(-1, 10), control(0, 1), control(1, 1), control(1, 1)),
        Err(CubicBezierError::XOutsideUnitInterval {
            control: CubicControl::X1
        })
    );
    assert_eq!(
        CubicBezier::new(control(0, 1), control(0, 1), control(11, 10), control(1, 1)),
        Err(CubicBezierError::XOutsideUnitInterval {
            control: CubicControl::X2
        })
    );
    let overshoot = CubicBezier::new(control(1, 4), control(-1, 2), control(3, 4), control(3, 2))
        .expect("y controls may overshoot");
    assert_eq!(overshoot.y1(), control(-1, 2));
    assert_eq!(overshoot.y2(), control(3, 2));
}

fn square() -> Vec<PathCommandKind> {
    vec![
        PathCommandKind::MoveTo,
        PathCommandKind::LineTo,
        PathCommandKind::LineTo,
        PathCommandKind::LineTo,
        PathCommandKind::Close,
    ]
}

fn valid(commands: Vec<PathCommandKind>) -> PathFacts {
    PathFacts { commands, validation_error: None }
}

fn path_segment(end: KeyframeOffset, commands: Vec<PathCommandKind>) -> PathSegment {
    PathSegment::new(Easing::Linear, PathKeyframe::new(end, valid(commands)))
}

#[test]
fn path_curves_need_one_interpolable_topology() {
    let curve = PathCurve::linear(valid(square()), valid(square())).expect("equal topology interpolates");
    assert_eq!(curve.segments().len(), 1);
    assert_eq!(curve.first_path(), &valid(square()));
    assert_eq!(curve.last_path(), &valid(square()));
    assert_eq!(curve.keyframe_count(), 2);

    let mut arc = square();
    arc[2] = PathCommandKind::ConicTo;
    assert_eq!(
        PathCurve::linear(valid(arc.clone()), valid(arc.clone())).unwrap_err(),
        PathCurveError::ConicNotInterpolable { keyframe_index: 0, command_index: 2 }
    );
    assert_eq!(
        PathCurve::linear(valid(square()), valid(arc)).unwrap_err(),
        PathCurveError::ConicNotInterpolable { keyframe_index: 1, command_index: 2 }
    );
    let mut curved = square();
    curved[1] = PathCommandKind::CubicTo;
    let first = PathKeyframe::new(KeyframeOffset::zero(), valid(square()));
    assert_eq!(
        PathCurve::new(
            first.clone(),
            vec![path_segment(offset(1, 2), square()), path_segment(KeyframeOffset::one(), curved)],
        )
        .unwrap_err(),
        PathCurveError::DifferentTopology { keyframe_index: 2 }
    );
}

#[test]
fn path_curve_segments_are_checked_one_at_a_time() {
    let first = PathKeyframe::new(KeyframeOffset::zero(), valid(square()));
    let late = PathKeyframe::new(offset(1, 3), valid(square()));
    assert_eq!(
        PathCurve::new(late.clone(), vec![path_segment(KeyframeOffset::one(), square())]).unwrap_err(),
        PathCurveError::FirstOffsetMustBeZero { actual: offset(1, 3) }
    );
    let single = PathCurve::new(late, vec![]).expect("a single keyframe is a constant path");
    assert!(single.first().offset.is_zero_exec());

    assert_eq!(
        PathCurve::new(
            first.clone(),
            vec![
                path_segment(offset(1, 2), square()),
                path_segment(offset(1, 2), vec![PathCommandKind::MoveTo]),
            ],
        )
        .unwrap_err(),
        PathCurveError::DifferentTopology { keyframe_index: 2 },
        "the topology of a segment is checked before its offset"
    );
    assert_eq!(
        PathCurve::new(
            first.clone(),
            vec![path_segment(offset(1, 2), square()), path_segment(offset(1, 2), square())],
        )
        .unwrap_err(),
        PathCurveError::OffsetsNotStrictlyIncreasing {
            previous_index: 1,
            current_index: 2,
            previous: offset(1, 2),
            current: offset(1, 2),
        }
    );
    let overshoot = CubicBezier::new(control(1, 4), control(0, 1), control(3, 4), control(3, 2)).unwrap();
    assert_eq!(
        PathCurve::new(
            first.clone(),
            vec![PathSegment::new(Easing::CubicBezier(overshoot), PathKeyframe::new(KeyframeOffset::one(), valid(square())))],
        )
        .unwrap_err(),
        PathCurveError::UnsafeCubicControl { segment_index: 0, control: CubicControl::Y2 }
    );
    assert_eq!(
        PathCurve::new(first, vec![path_segment(offset(3, 4), square())]).unwrap_err(),
        PathCurveError::LastOffsetMustBeOne { actual: offset(3, 4) }
    );
}

fn transform(offset: KeyframeOffset, kind: TransformKind, finite: bool) -> TransformKeyframe {
    TransformKeyframe { offset, value: TransformFacts { kind, finite } }
}

fn transform_segment(end: TransformKeyframe) -> TransformSegment {
    TransformSegment { easing: Easing::Linear, end }
}

#[test]
fn transform_curves_keep_one_finite_kind() {
    let first = transform(KeyframeOffset::zero(), TransformKind::Rotate, true);
    let curve = TransformCurve::new(
        first,
        vec![
            transform_segment(transform(offset(1, 2), TransformKind::Rotate, true)),
            transform_segment(transform(KeyframeOffset::one(), TransformKind::Rotate, true)),
        ],
    )
    .expect("one finite kind on an increasing schedule");
    assert_eq!(curve.segments().len(), 2);
    assert_eq!(curve.first(), first);

    assert_eq!(
        TransformCurve::new(transform(offset(1, 2), TransformKind::Scale, false), vec![]),
        Err(TransformCurveError::NonFiniteValue { keyframe_index: 0 })
    );
    let constant = TransformCurve::new(transform(offset(1, 2), TransformKind::Scale, true), vec![]).unwrap();
    assert!(constant.first().offset.is_zero_exec());
    assert_eq!(
        TransformCurve::new(
            first,
            vec![transform_segment(transform(KeyframeOffset::one(), TransformKind::Translate, false))],
        ),
        Err(TransformCurveError::MixedKinds {
            expected: TransformKind::Rotate,
            keyframe_index: 1,
            actual: TransformKind::Translate
        })
    );
    assert_eq!(
        TransformCurve::new(
            first,
            vec![
                transform_segment(transform(offset(1, 2), TransformKind::Rotate, true)),
                transform_segment(transform(KeyframeOffset::one(), TransformKind::Rotate, false)),
            ],
        ),
        Err(TransformCurveError::NonFiniteValue { keyframe_index: 2 })
    );
    assert_eq!(
        TransformCurve::new(
            first,
            vec![
                transform_segment(transform(offset(2, 3), TransformKind::Rotate, true)),
                transform_segment(transform(offset(1, 3), TransformKind::Rotate, true)),
            ],
        ),
        Err(TransformCurveError::OffsetsNotStrictlyIncreasing {
            previous_index: 1,
            current_index: 2,
            previous: offset(2, 3),
            current: offset(1, 3)
        })
    );
    assert_eq!(
        TransformCurve::new(first, vec![transform_segment(transform(offset(2, 3), TransformKind::Rotate, true))]),
        Err(TransformCurveError::LastOffsetMustBeOne { actual: offset(2, 3) })
    );
}

#[test]
fn invalid_paths_are_refused_before_topology() {
    let broken = PathFacts { commands: square(), validation_error: Some("non-finite coordinate".to_string()) };
    assert_eq!(
        PathCurve::constant(broken.clone()).unwrap_err(),
        PathCurveError::InvalidPath { keyframe_index: 0, reason: "non-finite coordinate".to_string() }
    );
    let mismatched = PathFacts { commands: vec![PathCommandKind::MoveTo], validation_error: Some("empty contour".to_string()) };
    assert_eq!(
        PathCurve::linear(valid(square()), mismatched).unwrap_err(),
        PathCurveError::InvalidPath { keyframe_index: 1, reason: "empty contour".to_string() },
        "validity is checked before topology"
    );
    let constant = PathCurve::constant(valid(square())).unwrap();
    assert_eq!(constant.keyframe_count(), 1);
    assert!(constant.first().offset.is_zero_exec());
}

#[test]
fn transform_curve_accessors_follow_the_schedule() {
    let rotate = TransformFacts { kind: TransformKind::Rotate, finite: true };
    let curve = TransformCurve::linear(rotate, TransformFacts { kind: TransformKind::Rotate, finite: true }).unwrap();
    assert_eq!(curve.keyframe_count(), 2);
    assert_eq!(curve.kind(), TransformKind::Rotate);
    assert_eq!(curve.last_value(), rotate);
    assert_eq!(
        TransformCurve::linear(rotate, TransformFacts { kind: TransformKind::Scale, finite: true }),
        Err(TransformCurveError::MixedKinds { expected: TransformKind::Rotate, keyframe_index: 1, actual: TransformKind::Scale })
    );
    let constant = TransformCurve::constant(rotate).unwrap();
    assert_eq!(constant.keyframe_count(), 1);
    assert_eq!(
        TransformCurve::constant(TransformFacts { kind: TransformKind::Scale, finite: false }),
        Err(TransformCurveError::NonFiniteValue { keyframe_index: 0 })
    );
}
