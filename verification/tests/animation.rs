use n0::animation::{
    check_composition, check_solid_fill_stack, document_matches, implicated_sources,
    needs_underlying, overwrites_underlying, program_root, underlying_color,
    underlying_value_shape, unique_sources, validate_live_underlying_easing,
    validate_track_identity, AnimationValueError, CompositeOperation, IterationCompositeOperation,
    ProgramError, ScalarDomainError, TrackEffectKind, TrackError, TrackKind, TrackSource,
    UnderlyingValue, UnderlyingValueShape, MAX_SOLID_FILL_EFFECTS_PER_TARGET,
};
use n0::curves::{ControlValue, CubicBezier, CubicControl, Easing};
use n0::ident::{Document, NodeKey};
use n0::paint::{BlendMode, Color, NonSolidKind, NonSolidPaint, Paint, Paints, SolidPaint};
use n0::properties::{AnchorEdge, PropertyError, PropertyKey, PropertyTarget};

fn node(slot: u32) -> NodeKey {
    NodeKey {
        incarnation: 1,
        slot,
        generation: 0,
    }
}

fn target(property: PropertyKey) -> PropertyTarget {
    PropertyTarget::new(node(1), property)
}

#[test]
fn track_identity_needs_a_source_and_a_matching_property() {
    assert_eq!(
        validate_track_identity("", target(PropertyKey::X), TrackKind::AxisStart),
        Err(TrackError::EmptySource)
    );
    assert_eq!(
        validate_track_identity("svg/animate[1]", target(PropertyKey::Y), TrackKind::AxisStart),
        Ok(())
    );
    assert_eq!(
        validate_track_identity("svg/animate[1]", target(PropertyKey::Height), TrackKind::FixedSize),
        Ok(())
    );
    assert_eq!(
        validate_track_identity("a", target(PropertyKey::Width), TrackKind::Opacity),
        Err(TrackError::WrongProperty {
            source: "a".to_string(),
            kind: TrackKind::Opacity,
            actual: PropertyKey::Width,
        })
    );
    assert_eq!(
        validate_track_identity("a", target(PropertyKey::Fills), TrackKind::SolidFill),
        Ok(())
    );
    assert!(validate_track_identity("a", target(PropertyKey::Fills), TrackKind::PathGeometry).is_err());
    assert!(validate_track_identity("a", target(PropertyKey::LensOps), TrackKind::LensTransform).is_ok());
}

#[test]
fn effects_admit_only_meaningful_compositions() {
    assert!(TrackEffectKind::ScalarCurve.admits_composition(CompositeOperation::Add, IterationCompositeOperation::Accumulate));
    assert!(!TrackEffectKind::ScalarCurve.admits_composition(CompositeOperation::InterpolateLiveUnderlying, IterationCompositeOperation::Replace));
    assert!(TrackEffectKind::SolidFillFromLiveUnderlying.admits_composition(CompositeOperation::InterpolateLiveUnderlying, IterationCompositeOperation::Replace));
    assert!(!TrackEffectKind::ScalarFromLiveUnderlying.admits_composition(CompositeOperation::InterpolateLiveUnderlying, IterationCompositeOperation::Accumulate));
    assert!(!TrackEffectKind::PathCurve.admits_composition(CompositeOperation::Add, IterationCompositeOperation::Replace));
    assert!(TrackEffectKind::DiscreteCurve.admits_composition(CompositeOperation::Replace, IterationCompositeOperation::Replace));
    assert_eq!(
        check_composition("p", TrackEffectKind::EasedDiscretePair, CompositeOperation::Add, IterationCompositeOperation::Replace),
        Err(TrackError::InvalidComposition {
            source: "p".to_string(),
            effect: TrackEffectKind::EasedDiscretePair,
            composite: CompositeOperation::Add,
            iteration_composite: IterationCompositeOperation::Replace,
        })
    );
    assert_eq!(check_composition("t", TrackEffectKind::TransformCurve, CompositeOperation::Add, IterationCompositeOperation::Accumulate), Ok(()));
    for effect in [
        TrackEffectKind::ScalarCurve,
        TrackEffectKind::ScalarFromLiveUnderlying,
        TrackEffectKind::SolidFillCurve,
        TrackEffectKind::SolidFillFromLiveUnderlying,
        TrackEffectKind::TransformCurve,
        TrackEffectKind::PathCurve,
        TrackEffectKind::DiscreteCurve,
        TrackEffectKind::EasedDiscretePair,
    ] {
        let (composite, iteration) = effect.default_composition();
        assert!(effect.admits_composition(composite, iteration));
    }
    assert!(overwrites_underlying(CompositeOperation::Replace));
    assert!(!overwrites_underlying(CompositeOperation::Add));
    assert!(needs_underlying(CompositeOperation::Add) && needs_underlying(CompositeOperation::InterpolateLiveUnderlying));
    assert!(!needs_underlying(CompositeOperation::Replace));
}

fn control(n: i64, d: u64) -> ControlValue {
    ControlValue::new(n, d).unwrap()
}

#[test]
fn live_underlying_easing_stays_convex() {
    assert_eq!(validate_live_underlying_easing("a", TrackKind::Opacity, &Easing::Linear), Ok(()));
    let convex = CubicBezier::new(control(1, 4), control(0, 1), control(3, 4), control(1, 1)).unwrap();
    assert_eq!(
        validate_live_underlying_easing("a", TrackKind::Opacity, &Easing::CubicBezier(convex)),
        Ok(())
    );
    let overshoot = CubicBezier::new(control(1, 4), control(1, 2), control(3, 4), control(5, 4)).unwrap();
    assert_eq!(
        validate_live_underlying_easing("b", TrackKind::FixedSize, &Easing::CubicBezier(overshoot)),
        Err(TrackError::UnsafeCubicControl {
            source: "b".to_string(),
            kind: TrackKind::FixedSize,
            segment_index: 0,
            control: CubicControl::Y2,
            reason: ScalarDomainError::OutsideUnitInterval,
        })
    );
}

fn solid(argb: u32, active: bool, blend_mode: BlendMode) -> Paint {
    Paint::Solid(SolidPaint {
        color: Color(argb),
        active,
        blend_mode,
    })
}

#[test]
fn underlying_shapes_name_each_value_form() {
    assert_eq!(
        underlying_value_shape(&UnderlyingValue::AxisPin { anchor: AnchorEdge::Center }),
        UnderlyingValueShape::CenterPin
    );
    assert_eq!(underlying_value_shape(&UnderlyingValue::AutoSize), UnderlyingValueShape::AutoSize);
    assert_eq!(
        underlying_value_shape(&UnderlyingValue::Paints(Paints::empty())),
        UnderlyingValueShape::EmptyPaints
    );
    assert_eq!(
        underlying_value_shape(&UnderlyingValue::Paints(Paints::new(vec![solid(0xFF00_0000, false, BlendMode::Normal)]))),
        UnderlyingValueShape::InactiveSolidPaint
    );
    assert_eq!(
        underlying_value_shape(&UnderlyingValue::Paints(Paints::new(vec![solid(0xFF00_0000, true, BlendMode::Screen)]))),
        UnderlyingValueShape::BlendedSolidPaint
    );
    assert_eq!(
        underlying_value_shape(&UnderlyingValue::Paints(Paints::new(vec![Paint::NonSolid(NonSolidPaint {
            kind: NonSolidKind::Image,
            active: true,
            blend_mode: BlendMode::Normal,
            fully_transparent: false,
        })]))),
        UnderlyingValueShape::NonSolidPaint
    );
    assert_eq!(
        underlying_value_shape(&UnderlyingValue::Paints(Paints::new(vec![
            solid(1, true, BlendMode::Normal),
            solid(2, true, BlendMode::Normal)
        ]))),
        UnderlyingValueShape::PaintStack
    );
}

#[test]
fn a_solid_fill_sandwich_starts_from_one_active_normal_solid() {
    let fills = target(PropertyKey::Fills);
    assert_eq!(
        underlying_color(TrackKind::SolidFill, fills, &UnderlyingValue::Paints(Paints::solid(Color(0xFF11_2233)))),
        Ok(Color(0xFF11_2233))
    );
    assert_eq!(
        underlying_color(
            TrackKind::SolidFill,
            fills,
            &UnderlyingValue::Paints(Paints::new(vec![solid(0xFF11_2233, true, BlendMode::Multiply)]))
        ),
        Err(AnimationValueError::UnsupportedUnderlying {
            target: fills,
            expected: TrackKind::SolidFill,
            actual: UnderlyingValueShape::BlendedSolidPaint,
        })
    );
    assert_eq!(
        underlying_color(TrackKind::SolidFill, fills, &UnderlyingValue::Number),
        Err(AnimationValueError::UnsupportedUnderlying {
            target: fills,
            expected: TrackKind::SolidFill,
            actual: UnderlyingValueShape::Number,
        })
    );
}

#[test]
fn sources_are_reported_once_in_first_occurrence_order() {
    let sources: Vec<String> = ["b", "a", "b", "c", "a"].iter().map(|s| s.to_string()).collect();
    assert_eq!(unique_sources(&sources), vec!["b", "a", "c"]);
    assert!(unique_sources(&vec![]).is_empty());
}

#[test]
fn a_refusal_implicates_the_tracks_it_names() {
    let x = target(PropertyKey::X);
    let y = target(PropertyKey::Y);
    let other = PropertyTarget::new(node(2), PropertyKey::X);
    let tracks = vec![
        TrackSource { source: "t1".into(), target: x },
        TrackSource { source: "t2".into(), target: y },
        TrackSource { source: "t3".into(), target: other },
        TrackSource { source: "t1".into(), target: x },
    ];
    assert_eq!(
        implicated_sources(&tracks, &PropertyError::StaleTarget { target: x }),
        vec!["t1"]
    );
    assert_eq!(
        implicated_sources(
            &tracks,
            &PropertyError::InvalidEffectiveState {
                node: node(1),
                properties: vec![PropertyKey::Y, PropertyKey::X],
            }
        ),
        vec!["t1", "t2"]
    );
    assert!(implicated_sources(&tracks, &PropertyError::InvalidValue { target: target(PropertyKey::Opacity) }).is_empty());
}

#[test]
fn programs_bind_to_a_live_document_root() {
    let document = Document::new(7);
    assert_eq!(program_root(&document, ""), Err(ProgramError::EmptyCompilerId));
    let root = program_root(&document, "svg").expect("live root");
    assert_eq!(root, NodeKey { incarnation: 7, slot: 0, generation: 0 });
    assert!(document_matches(&document, root));
    assert!(!document_matches(&Document::new(8), root));
    let mut removed = Document::new(7);
    assert!(removed.remove_node(0));
    assert_eq!(program_root(&removed, "svg"), Err(ProgramError::DocumentHasNoLiveRoot));
    assert!(!document_matches(&removed, root));
}

#[test]
fn solid_fill_stacks_are_bounded() {
    let fills = target(PropertyKey::Fills);
    assert_eq!(check_solid_fill_stack(fills, MAX_SOLID_FILL_EFFECTS_PER_TARGET), Ok(()));
    assert_eq!(
        check_solid_fill_stack(fills, 257),
        Err(ProgramError::TooManySolidFillEffects {
            target: fills,
            count: 257,
            maximum: 256,
        })
    );
}
