use n0::animation::{
    CompositeOperation, IterationCompositeOperation, ProgramError, TrackEffectKind, TrackError, TrackKind,
    MAX_SOLID_FILL_EFFECTS_PER_TARGET,
};
use n0::animation::{AnimationValueError, Endpoint, ScalarDomainError, UnderlyingValue, UnderlyingValueShape};
use n0::compile_checks::TrackDocumentFacts;
use n0::ident::{Document, NodeKey};
use n0::paint::{Color, Paint, Paints, SolidPaint};
use n0::properties::AnchorEdge;
use n0::program::{influential_start, AnimationProgram, SampleError, SampleTime, Track};

const AT: SampleTime = SampleTime { nanoseconds: 1_500 };
use n0::properties::PropertyError;
use n0::properties::{PropertyKey, PropertyTarget, PropertyValueKind};

/// The document accepts every endpoint value, and each target's base value
/// is one its kind composes with.
fn accepted(tracks: &[Track]) -> Vec<TrackDocumentFacts> {
    tracks
        .iter()
        .map(|track| TrackDocumentFacts {
            endpoint_errors: vec![None; track.keyframe_count()],
            base: match track.kind() {
                TrackKind::AxisStart => UnderlyingValue::AxisPin { anchor: AnchorEdge::Start },
                TrackKind::FixedSize => UnderlyingValue::FixedSize,
                TrackKind::Opacity => UnderlyingValue::Number,
                TrackKind::SolidFill => {
                    UnderlyingValue::Paints(Paints::new(vec![Paint::Solid(SolidPaint::new(Color(0xFF00_0000)))]))
                }
                TrackKind::LensTransform => UnderlyingValue::LensOps,
                TrackKind::PathGeometry => UnderlyingValue::PathGeometry,
            },
            base_scalar_error: None,
            base_value_error: None,
        })
        .collect()
}

fn compile(document: &Document, compiler_id: String, tracks: Vec<Track>) -> Result<AnimationProgram, ProgramError> {
    let facts = accepted(&tracks);
    AnimationProgram::new(document, compiler_id, tracks, facts)
}

fn target(slot: u32, property: PropertyKey) -> PropertyTarget {
    PropertyTarget::new(NodeKey { incarnation: 1, slot, generation: 0 }, property)
}

fn opacity(source: &str, slot: u32) -> Track {
    Track::new(source.to_string(), target(slot, PropertyKey::Opacity), TrackKind::Opacity, TrackEffectKind::ScalarCurve, 2)
        .expect("valid opacity track")
}

fn solid_fill(source: &str, slot: u32) -> Track {
    Track::new(source.to_string(), target(slot, PropertyKey::Fills), TrackKind::SolidFill, TrackEffectKind::SolidFillCurve, 2)
        .expect("valid solid-fill track")
}

/// A document whose slots 0 through 5 hold live nodes.
fn populated() -> Document {
    let mut document = Document::new(1);
    for _ in 0..5 {
        document.add_node();
    }
    document
}

fn sources(program: &AnimationProgram) -> Vec<String> {
    program.tracks().iter().map(|track| track.source().to_string()).collect()
}

#[test]
fn tracks_group_by_target_and_keep_priority_inside_each_stack() {
    let document = populated();
    let x = Track::new("d".to_string(), target(1, PropertyKey::X), TrackKind::AxisStart, TrackEffectKind::ScalarCurve, 2)
        .unwrap();
    let tracks = vec![opacity("a", 2), solid_fill("b", 1), opacity("c", 2), x];
    let program = compile(&document, "compiler".to_string(), tracks).expect("valid program");
    assert_eq!(sources(&program), vec!["d", "b", "a", "c"]);
    assert_eq!(program.effect_stacks(), vec![(0, 1), (1, 2), (2, 4)]);
    assert_eq!(program.compiler_id(), "compiler");
    assert_eq!(program.document_root(), NodeKey { incarnation: 1, slot: 0, generation: 0 });
}

#[test]
fn program_identity_is_checked_before_tracks() {
    let mut document = populated();
    assert_eq!(
        compile(&document, String::new(), vec![opacity("a", 1)]).unwrap_err(),
        ProgramError::EmptyCompilerId
    );
    assert!(document.remove_node(0));
    assert_eq!(
        compile(&document, "compiler".to_string(), vec![opacity("a", 1)]).unwrap_err(),
        ProgramError::DocumentHasNoLiveRoot
    );
    assert_eq!(AnimationProgram::empty(&document, "compiler".to_string()).unwrap_err(), ProgramError::DocumentHasNoLiveRoot);
}

#[test]
fn empty_program_has_no_stacks() {
    let document = Document::new(4);
    let program = AnimationProgram::empty(&document, "compiler".to_string()).unwrap();
    assert!(program.tracks().is_empty());
    assert!(program.effect_stacks().is_empty());
    assert_eq!(program.document_root().incarnation, 4);
}

#[test]
fn solid_fill_stacks_stop_at_the_exact_channel_ceiling() {
    let document = populated();
    let at_ceiling: Vec<Track> = (0..MAX_SOLID_FILL_EFFECTS_PER_TARGET).map(|i| solid_fill(&format!("s{i}"), 3)).collect();
    let program = compile(&document, "compiler".to_string(), at_ceiling).expect("ceiling is admitted");
    assert_eq!(program.effect_stacks(), vec![(0, MAX_SOLID_FILL_EFFECTS_PER_TARGET)]);

    let mut over: Vec<Track> = (0..=MAX_SOLID_FILL_EFFECTS_PER_TARGET).map(|i| solid_fill(&format!("s{i}"), 5)).collect();
    over.extend((0..=MAX_SOLID_FILL_EFFECTS_PER_TARGET).map(|i| solid_fill(&format!("t{i}"), 3)));
    over.push(opacity("o", 3));
    assert_eq!(
        compile(&document, "compiler".to_string(), over).unwrap_err(),
        ProgramError::TooManySolidFillEffects {
            target: target(3, PropertyKey::Fills),
            count: MAX_SOLID_FILL_EFFECTS_PER_TARGET + 1,
            maximum: 256,
        }
    );

    let deep_opacity: Vec<Track> = (0..=MAX_SOLID_FILL_EFFECTS_PER_TARGET).map(|i| opacity(&format!("o{i}"), 3)).collect();
    assert!(compile(&document, "compiler".to_string(), deep_opacity).is_ok());
}

#[test]
fn tracks_validate_identity_and_composition() {
    let fills = target(1, PropertyKey::Fills);
    assert_eq!(
        Track::new(String::new(), fills, TrackKind::SolidFill, TrackEffectKind::SolidFillCurve, 2).unwrap_err(),
        TrackError::EmptySource
    );
    assert_eq!(
        Track::new("a".to_string(), fills, TrackKind::Opacity, TrackEffectKind::ScalarCurve, 2).unwrap_err(),
        TrackError::WrongProperty { source: "a".to_string(), kind: TrackKind::Opacity, actual: PropertyKey::Fills }
    );
    let live = Track::new("l".to_string(), fills, TrackKind::SolidFill, TrackEffectKind::SolidFillFromLiveUnderlying, 1)
        .unwrap();
    assert_eq!(live.composite(), CompositeOperation::InterpolateLiveUnderlying);
    assert!(live.needs_underlying());
    assert_eq!(
        live.with_composition(CompositeOperation::Add, IterationCompositeOperation::Replace).unwrap_err(),
        TrackError::InvalidComposition {
            source: "l".to_string(),
            effect: TrackEffectKind::SolidFillFromLiveUnderlying,
            composite: CompositeOperation::Add,
            iteration_composite: IterationCompositeOperation::Replace,
        }
    );
    let added = solid_fill("s", 1)
        .with_composition(CompositeOperation::Add, IterationCompositeOperation::Accumulate)
        .unwrap();
    assert_eq!(added.composite(), CompositeOperation::Add);
    assert_eq!(added.iteration_composite(), IterationCompositeOperation::Accumulate);
    assert_eq!(added.source(), "s");
    assert_eq!(added.effect_kind(), TrackEffectKind::SolidFillCurve);
    assert_eq!(added.keyframe_count(), 2);
    assert_eq!(added.kind(), TrackKind::SolidFill);
    assert_eq!(added.target(), fills);
}

#[test]
fn the_last_replacing_effect_starts_the_influential_stack() {
    let add = |source: &str| {
        opacity(source, 1).with_composition(CompositeOperation::Add, IterationCompositeOperation::Replace).unwrap()
    };
    let stack = vec![add("a"), opacity("b", 1), add("c"), opacity("d", 1), add("e")];
    assert_eq!(influential_start(&stack), 3);
    let additive = vec![add("a"), add("b")];
    assert_eq!(influential_start(&additive), 0);
    assert_eq!(influential_start(&[]), 0);
}


#[test]
fn sampling_refuses_another_incarnation_and_stale_targets() {
    let mut document = Document::new(1);
    let first = document.add_node();
    let second = document.add_node();
    let key = |slot: u32| NodeKey { incarnation: 1, slot, generation: 0 };
    let fills = |slot: u32| PropertyTarget::new(key(slot), PropertyKey::Fills);
    let fill_track = |source: &str, slot: u32| {
        Track::new(source.to_string(), fills(slot), TrackKind::SolidFill, TrackEffectKind::SolidFillCurve, 2).unwrap()
    };
    let tracks = vec![fill_track("b", second), fill_track("a", first), fill_track("c", second), fill_track("b", second)];
    let program = compile(&document, "compiler".to_string(), tracks).unwrap();
    assert_eq!(program.check_sample_targets(&document, AT, &vec![true; 4]), Ok(()));

    assert!(document.remove_node(second));
    assert_eq!(
        program.check_sample_targets(&document, AT, &vec![true; 4]),
        Err(SampleError::InvalidValues {
            compiler_id: "compiler".to_string(),
            time: AT,
            sources: vec!["b".to_string(), "c".to_string()],
            error: PropertyError::StaleTarget { target: fills(second) },
        })
    );

    let other = Document::new(2);
    assert_eq!(
        program.check_sample_targets(&other, AT, &vec![true; 4]),
        Err(SampleError::DocumentMismatch {
            compiler_id: "compiler".to_string(),
            time: AT,
            expected: key(0),
            actual: Some(NodeKey { incarnation: 2, slot: 0, generation: 0 }),
        })
    );
}

#[test]
fn stale_endpoints_are_refused_at_compile_time() {
    let mut document = populated();
    assert!(document.remove_node(4));
    assert!(document.remove_node(2));
    let live = Track::new(
        "live".to_string(),
        target(4, PropertyKey::Fills),
        TrackKind::SolidFill,
        TrackEffectKind::SolidFillFromLiveUnderlying,
        1,
    )
    .unwrap();
    let curve = Track::new("curve".to_string(), target(2, PropertyKey::Opacity), TrackKind::Opacity, TrackEffectKind::ScalarCurve, 3)
        .unwrap();
    assert_eq!(
        compile(&document, "compiler".to_string(), vec![live, curve, opacity("ok", 1)]).unwrap_err(),
        ProgramError::InvalidKeyframe {
            source: "curve".to_string(),
            keyframe_index: 0,
            error: PropertyError::StaleTarget { target: target(2, PropertyKey::Opacity) },
        }
    );
    assert_eq!(
        compile(&document, "compiler".to_string(), vec![opacity("pair", 2)]).unwrap_err(),
        ProgramError::InvalidEndpoint {
            source: "pair".to_string(),
            endpoint: n0::animation::Endpoint::From,
            error: PropertyError::StaleTarget { target: target(2, PropertyKey::Opacity) },
        }
    );
    let live = Track::new(
        "live".to_string(),
        target(4, PropertyKey::Fills),
        TrackKind::SolidFill,
        TrackEffectKind::SolidFillFromLiveUnderlying,
        1,
    )
    .unwrap();
    assert_eq!(
        compile(&document, "compiler".to_string(), vec![live]).unwrap_err(),
        ProgramError::InvalidEndpoint {
            source: "live".to_string(),
            endpoint: n0::animation::Endpoint::To,
            error: PropertyError::StaleTarget { target: target(4, PropertyKey::Fills) },
        }
    );
}

#[test]
fn inapplicable_targets_refuse_the_whole_sample() {
    let document = populated();
    let tracks = vec![opacity("a", 1), solid_fill("b", 2), solid_fill("c", 2)];
    let program = compile(&document, "compiler".to_string(), tracks).unwrap();
    assert_eq!(
        program.check_sample_targets(&document, AT, &vec![true, false, false]),
        Err(SampleError::InvalidValues {
            compiler_id: "compiler".to_string(),
            time: AT,
            sources: vec!["b".to_string(), "c".to_string()],
            error: PropertyError::Inapplicable { target: target(2, PropertyKey::Fills) },
        })
    );
    assert_eq!(
        program.sample_entries(&document, AT, &vec![true, false, false], &vec![false, false, false]),
        Err(SampleError::InvalidValues {
            compiler_id: "compiler".to_string(),
            time: AT,
            sources: vec!["b".to_string(), "c".to_string()],
            error: PropertyError::Inapplicable { target: target(2, PropertyKey::Fills) },
        }),
        "no contribution cannot hide an inapplicable target"
    );
}

#[test]
fn each_contributing_stack_yields_its_influential_range() {
    let document = populated();
    let add = |source: &str, slot: u32| {
        opacity(source, slot).with_composition(CompositeOperation::Add, IterationCompositeOperation::Replace).unwrap()
    };
    let tracks = vec![add("a", 1), opacity("b", 1), add("c", 1), add("d", 2), add("e", 2), opacity("f", 3)];
    let program = compile(&document, "compiler".to_string(), tracks).unwrap();
    let applicable = vec![true; 6];
    assert_eq!(
        program.sample_entries(&document, AT, &applicable, &vec![true, true, true, false, true, false]),
        Ok(vec![(target(1, PropertyKey::Opacity), 1, 3), (target(2, PropertyKey::Opacity), 4, 5)])
    );
    assert_eq!(
        program.sample_entries(&document, AT, &applicable, &vec![true, false, true, false, false, true]),
        Ok(vec![(target(1, PropertyKey::Opacity), 0, 3), (target(3, PropertyKey::Opacity), 5, 6)])
    );
    assert_eq!(program.sample_entries(&document, AT, &applicable, &vec![false; 6]), Ok(vec![]));
}

fn reading(track: Track) -> Track {
    track.with_composition(CompositeOperation::Add, IterationCompositeOperation::Replace).unwrap()
}

#[test]
fn refused_endpoint_values_name_the_first_track_in_program_order() {
    let document = populated();
    let tracks = vec![opacity("late", 3), opacity("early", 1), opacity("same", 1)];
    let mut facts = accepted(&tracks);
    facts[0].endpoint_errors[0] = Some(PropertyError::InvalidValue { target: target(3, PropertyKey::Opacity) });
    facts[2].endpoint_errors[1] = Some(PropertyError::InvalidValue { target: target(1, PropertyKey::Opacity) });
    assert_eq!(
        AnimationProgram::new(&document, "compiler".to_string(), tracks, facts).unwrap_err(),
        ProgramError::InvalidEndpoint {
            source: "same".to_string(),
            endpoint: Endpoint::To,
            error: PropertyError::InvalidValue { target: target(1, PropertyKey::Opacity) },
        },
        "slot 1 comes before slot 3 in target order"
    );

    let curve = Track::new("curve".to_string(), target(2, PropertyKey::Opacity), TrackKind::Opacity, TrackEffectKind::ScalarCurve, 4)
        .unwrap();
    let tracks = vec![curve];
    let mut facts = accepted(&tracks);
    let wrong = PropertyError::WrongValueKind {
        target: target(2, PropertyKey::Opacity),
        expected: PropertyValueKind::Number,
        actual: PropertyValueKind::Paints,
    };
    facts[0].endpoint_errors[3] = Some(PropertyError::InvalidValue { target: target(2, PropertyKey::Opacity) });
    facts[0].endpoint_errors[2] = Some(wrong.clone());
    assert_eq!(
        AnimationProgram::new(&document, "compiler".to_string(), tracks, facts).unwrap_err(),
        ProgramError::InvalidKeyframe { source: "curve".to_string(), keyframe_index: 2, error: wrong }
    );
}

#[test]
fn the_solid_fill_ceiling_comes_before_endpoint_values_and_those_before_base_values() {
    let document = populated();
    let mut tracks: Vec<Track> = (0..=MAX_SOLID_FILL_EFFECTS_PER_TARGET).map(|i| solid_fill(&format!("s{i}"), 3)).collect();
    tracks.push(reading(opacity("reader", 1)));
    let mut facts = accepted(&tracks);
    facts[0].endpoint_errors[0] = Some(PropertyError::Inapplicable { target: target(3, PropertyKey::Fills) });
    let last = facts.len() - 1;
    facts[last].base = UnderlyingValue::Other;
    assert!(matches!(
        AnimationProgram::new(&document, "compiler".to_string(), tracks, facts).unwrap_err(),
        ProgramError::TooManySolidFillEffects { .. }
    ));

    let tracks = vec![solid_fill("fill", 3), reading(opacity("reader", 1))];
    let mut facts = accepted(&tracks);
    facts[0].endpoint_errors[0] = Some(PropertyError::Inapplicable { target: target(3, PropertyKey::Fills) });
    facts[1].base = UnderlyingValue::Other;
    assert_eq!(
        AnimationProgram::new(&document, "compiler".to_string(), tracks, facts).unwrap_err(),
        ProgramError::InvalidEndpoint {
            source: "fill".to_string(),
            endpoint: Endpoint::From,
            error: PropertyError::Inapplicable { target: target(3, PropertyKey::Fills) },
        },
        "every endpoint is checked before any stack reads its base value"
    );
}

#[test]
fn stacks_reading_an_unusable_base_value_are_refused() {
    let document = populated();
    let opacity_target = target(2, PropertyKey::Opacity);
    let tracks = || vec![opacity("plain", 2), reading(opacity("reader", 2)), reading(opacity("reader", 2)), reading(opacity("again", 2))];

    let mut facts = accepted(&tracks());
    facts[0].base = UnderlyingValue::Other;
    assert_eq!(
        AnimationProgram::new(&document, "compiler".to_string(), tracks(), facts).unwrap_err(),
        ProgramError::InvalidComposition {
            sources: vec!["reader".to_string(), "again".to_string()],
            error: AnimationValueError::UnsupportedUnderlying {
                target: opacity_target,
                expected: TrackKind::Opacity,
                actual: UnderlyingValueShape::Other,
            },
        }
    );

    let mut facts = accepted(&tracks());
    facts[0].base_scalar_error = Some(ScalarDomainError::OutsideUnitInterval);
    assert_eq!(
        AnimationProgram::new(&document, "compiler".to_string(), tracks(), facts).unwrap_err(),
        ProgramError::InvalidComposition {
            sources: vec!["reader".to_string(), "again".to_string()],
            error: AnimationValueError::InvalidUnderlying {
                target: opacity_target,
                kind: TrackKind::Opacity,
                reason: ScalarDomainError::OutsideUnitInterval,
            },
        }
    );

    // A stack that only replaces never reads its base value.
    let replacing = vec![opacity("plain", 2)];
    let mut facts = accepted(&replacing);
    facts[0].base = UnderlyingValue::Other;
    assert!(AnimationProgram::new(&document, "compiler".to_string(), replacing, facts).is_ok());

    // A solid-fill stack needs one active, normal-blend solid underneath.
    let fills = vec![reading(solid_fill("tint", 4))];
    let mut facts = accepted(&fills);
    facts[0].base = UnderlyingValue::Paints(Paints::new(vec![]));
    assert_eq!(
        AnimationProgram::new(&document, "compiler".to_string(), fills, facts).unwrap_err(),
        ProgramError::InvalidComposition {
            sources: vec!["tint".to_string()],
            error: AnimationValueError::UnsupportedUnderlying {
                target: target(4, PropertyKey::Fills),
                expected: TrackKind::SolidFill,
                actual: UnderlyingValueShape::EmptyPaints,
            },
        }
    );

    // A transform stack's base list is judged by the property registry.
    let lens_target = target(1, PropertyKey::LensOps);
    let lens = vec![reading(
        Track::new("spin".to_string(), lens_target, TrackKind::LensTransform, TrackEffectKind::TransformCurve, 2).unwrap(),
    )];
    let mut facts = accepted(&lens);
    facts[0].base_value_error = Some(PropertyError::InvalidValue { target: lens_target });
    assert_eq!(
        AnimationProgram::new(&document, "compiler".to_string(), lens, facts).unwrap_err(),
        ProgramError::InvalidValues {
            sources: vec!["spin".to_string()],
            error: PropertyError::InvalidValue { target: lens_target },
        }
    );
}
