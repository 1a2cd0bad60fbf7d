use n0::animation::{
    CompositeOperation, Endpoint, IterationCompositeOperation, ScalarDomainError, TrackEffectKind, TrackError,
    TrackKind,
};
use n0::curves::CubicControl;
use n0::properties::{PropertyKey, PropertyValueKind};

#[test]
fn empty_source_message() {
    assert_eq!(
        TrackError::EmptySource.message(),
        "animation track source identity must not be empty"
    );
}

#[test]
fn wrong_property_message_names_kind_and_property() {
    let error = TrackError::WrongProperty {
        source: "fade".to_string(),
        kind: TrackKind::Opacity,
        actual: PropertyKey::Width,
    };
    assert_eq!(error.message(), "animation track fade of kind Opacity cannot target Width");
}

#[test]
fn invalid_endpoint_message() {
    let error = TrackError::InvalidEndpoint {
        source: "grow".to_string(),
        kind: TrackKind::FixedSize,
        endpoint: Endpoint::To,
        reason: ScalarDomainError::Negative,
    };
    assert_eq!(error.message(), "animation track grow has invalid To endpoint for FixedSize: Negative");
}

#[test]
fn keyframe_index_is_written_in_decimal() {
    let error = TrackError::InvalidKeyframe {
        source: "s".to_string(),
        kind: TrackKind::Opacity,
        keyframe_index: 1207,
        reason: ScalarDomainError::OutsideUnitInterval,
    };
    assert_eq!(error.message(), "animation track s has invalid keyframe 1207 for Opacity: OutsideUnitInterval");
    let zero = TrackError::InvalidTransformProjection { source: "t".to_string(), keyframe_index: 0 };
    assert_eq!(
        zero.message(),
        "animation track t transform keyframe 0 cannot be represented as a finite affine value"
    );
    let ten = TrackError::InvalidTransformProjection { source: "t".to_string(), keyframe_index: 10 };
    assert_eq!(
        ten.message(),
        "animation track t transform keyframe 10 cannot be represented as a finite affine value"
    );
}

#[test]
fn unsafe_cubic_control_message() {
    let error = TrackError::UnsafeCubicControl {
        source: "ease".to_string(),
        kind: TrackKind::SolidFill,
        segment_index: 3,
        control: CubicControl::Y2,
        reason: ScalarDomainError::OutsideUnitInterval,
    };
    assert_eq!(
        error.message(),
        "animation track ease segment 3 has an unsafe Y2 property-space control for SolidFill: OutsideUnitInterval"
    );
}

#[test]
fn effect_value_and_path_messages() {
    let value = TrackError::InvalidEffectValue {
        source: "p".to_string(),
        keyframe_index: 2,
        expected: PropertyValueKind::Paints,
        actual: PropertyValueKind::Number,
    };
    assert_eq!(value.message(), "animation track p keyframe 2 has Number, expected Paints");
    let path = TrackError::InvalidPathGeometry {
        source: "morph".to_string(),
        keyframe_index: 1,
        reason: "open contour".to_string(),
    };
    assert_eq!(path.message(), "animation track morph path keyframe 1 is invalid: open contour");
}

#[test]
fn composition_message() {
    let error = TrackError::InvalidComposition {
        source: "c".to_string(),
        effect: TrackEffectKind::PathCurve,
        composite: CompositeOperation::Add,
        iteration_composite: IterationCompositeOperation::Accumulate,
    };
    assert_eq!(
        error.message(),
        "animation track c effect PathCurve does not admit Add composition with Accumulate iteration composition"
    );
}
