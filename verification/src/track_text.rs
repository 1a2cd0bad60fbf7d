//! The human-readable text of a refused track: each `TrackError` variant
//! reads as one sentence that names the track's source, the values the
//! refusal is about (by their variant names) and any index in decimal.

use vstd::prelude::*;
use vstd::string::StringExecFns;
use crate::animation::{
    CompositeOperation, Endpoint, IterationCompositeOperation, ScalarDomainError, TrackEffectKind, TrackError,
    TrackKind,
};
use crate::curves::CubicControl;
use crate::properties::{PropertyKey, PropertyValueKind};

verus! {

// ── variant names ──────────────────────────────────────────────────────────

pub open spec fn track_kind_text(kind: TrackKind) -> Seq<char> {
    match kind {
        TrackKind::AxisStart => "AxisStart"@,
        TrackKind::FixedSize => "FixedSize"@,
        TrackKind::Opacity => "Opacity"@,
        TrackKind::SolidFill => "SolidFill"@,
        TrackKind::LensTransform => "LensTransform"@,
        TrackKind::PathGeometry => "PathGeometry"@,
    }
}

fn track_kind_name(kind: TrackKind) -> (text: &'static str)
    ensures
        text@ == track_kind_text(kind),
{
    match kind {
        TrackKind::AxisStart => "AxisStart",
        TrackKind::FixedSize => "FixedSize",
        TrackKind::Opacity => "Opacity",
        TrackKind::SolidFill => "SolidFill",
        TrackKind::LensTransform => "LensTransform",
        TrackKind::PathGeometry => "PathGeometry",
    }
}

pub open spec fn property_key_text(key: PropertyKey) -> Seq<char> {
    match key {
        PropertyKey::X => "X"@,
        PropertyKey::Y => "Y"@,
        PropertyKey::Width => "Width"@,
        PropertyKey::Height => "Height"@,
        PropertyKey::Opacity => "Opacity"@,
        PropertyKey::Fills => "Fills"@,
        PropertyKey::LensOps => "LensOps"@,
        PropertyKey::PathGeometry => "PathGeometry"@,
    }
}

fn property_key_name(key: PropertyKey) -> (text: &'static str)
    ensures
        text@ == property_key_text(key),
{
    match key {
        PropertyKey::X => "X",
        PropertyKey::Y => "Y",
        PropertyKey::Width => "Width",
        PropertyKey::Height => "Height",
        PropertyKey::Opacity => "Opacity",
        PropertyKey::Fills => "Fills",
        PropertyKey::LensOps => "LensOps",
        PropertyKey::PathGeometry => "PathGeometry",
    }
}

pub open spec fn endpoint_text(endpoint: Endpoint) -> Seq<char> {
    match endpoint {
        Endpoint::From => "From"@,
        Endpoint::To => "To"@,
    }
}

fn endpoint_name(endpoint: Endpoint) -> (text: &'static str)
    ensures
        text@ == endpoint_text(endpoint),
{
    match endpoint {
        Endpoint::From => "From",
        Endpoint::To => "To",
    }
}

pub open spec fn domain_error_text(reason: ScalarDomainError) -> Seq<char> {
    match reason {
        ScalarDomainError::NotFinite => "NotFinite"@,
        ScalarDomainError::Negative => "Negative"@,
        ScalarDomainError::OutsideUnitInterval => "OutsideUnitInterval"@,
        ScalarDomainError::OutsideFiniteBinary32 => "OutsideFiniteBinary32"@,
    }
}

fn domain_error_name(reason: ScalarDomainError) -> (text: &'static str)
    ensures
        text@ == domain_error_text(reason),
{
    match reason {
        ScalarDomainError::NotFinite => "NotFinite",
        ScalarDomainError::Negative => "Negative",
        ScalarDomainError::OutsideUnitInterval => "OutsideUnitInterval",
        ScalarDomainError::OutsideFiniteBinary32 => "OutsideFiniteBinary32",
    }
}

pub open spec fn cubic_control_text(control: CubicControl) -> Seq<char> {
    match control {
        CubicControl::X1 => "X1"@,
        CubicControl::Y1 => "Y1"@,
        CubicControl::X2 => "X2"@,
        CubicControl::Y2 => "Y2"@,
    }
}

fn cubic_control_name(control: CubicControl) -> (text: &'static str)
    ensures
        text@ == cubic_control_text(control),
{
    match control {
        CubicControl::X1 => "X1",
        CubicControl::Y1 => "Y1",
        CubicControl::X2 => "X2",
        CubicControl::Y2 => "Y2",
    }
}

pub open spec fn value_kind_text(kind: PropertyValueKind) -> Seq<char> {
    match kind {
        PropertyValueKind::AxisBinding => "AxisBinding"@,
        PropertyValueKind::SizeIntent => "SizeIntent"@,
        PropertyValueKind::Number => "Number"@,
        PropertyValueKind::Paints => "Paints"@,
        PropertyValueKind::LensOps => "LensOps"@,
        PropertyValueKind::PathGeometry => "PathGeometry"@,
    }
}

fn value_kind_name(kind: PropertyValueKind) -> (text: &'static str)
    ensures
        text@ == value_kind_text(kind),
{
    match kind {
        PropertyValueKind::AxisBinding => "AxisBinding",
        PropertyValueKind::SizeIntent => "SizeIntent",
        PropertyValueKind::Number => "Number",
        PropertyValueKind::Paints => "Paints",
        PropertyValueKind::LensOps => "LensOps",
        PropertyValueKind::PathGeometry => "PathGeometry",
    }
}

pub open spec fn effect_kind_text(effect: TrackEffectKind) -> Seq<char> {
    match effect {
        TrackEffectKind::ScalarCurve => "ScalarCurve"@,
        TrackEffectKind::ScalarFromLiveUnderlying => "ScalarFromLiveUnderlying"@,
        TrackEffectKind::SolidFillCurve => "SolidFillCurve"@,
        TrackEffectKind::SolidFillFromLiveUnderlying => "SolidFillFromLiveUnderlying"@,
        TrackEffectKind::TransformCurve => "TransformCurve"@,
        TrackEffectKind::PathCurve => "PathCurve"@,
        TrackEffectKind::DiscreteCurve => "DiscreteCurve"@,
        TrackEffectKind::EasedDiscretePair => "EasedDiscretePair"@,
    }
}

fn effect_kind_name(effect: TrackEffectKind) -> (text: &'static str)
    ensures
        text@ == effect_kind_text(effect),
{
    match effect {
        TrackEffectKind::ScalarCurve => "ScalarCurve",
        TrackEffectKind::ScalarFromLiveUnderlying => "ScalarFromLiveUnderlying",
        TrackEffectKind::SolidFillCurve => "SolidFillCurve",
        TrackEffectKind::SolidFillFromLiveUnderlying => "SolidFillFromLiveUnderlying",
        TrackEffectKind::TransformCurve => "TransformCurve",
        TrackEffectKind::PathCurve => "PathCurve",
        TrackEffectKind::DiscreteCurve => "DiscreteCurve",
        TrackEffectKind::EasedDiscretePair => "EasedDiscretePair",
    }
}

pub open spec fn composite_text(composite: CompositeOperation) -> Seq<char> {
    match composite {
        CompositeOperation::Replace => "Replace"@,
        CompositeOperation::Add => "Add"@,
        CompositeOperation::InterpolateLiveUnderlying => "InterpolateLiveUnderlying"@,
    }
}

fn composite_name(composite: CompositeOperation) -> (text: &'static str)
    ensures
        text@ == composite_text(composite),
{
    match composite {
        CompositeOperation::Replace => "Replace",
        CompositeOperation::Add => "Add",
        CompositeOperation::InterpolateLiveUnderlying => "InterpolateLiveUnderlying",
    }
}

pub open spec fn iteration_composite_text(iteration: IterationCompositeOperation) -> Seq<char> {
    match iteration {
        IterationCompositeOperation::Replace => "Replace"@,
        IterationCompositeOperation::Accumulate => "Accumulate"@,
    }
}

fn iteration_composite_name(iteration: IterationCompositeOperation) -> (text: &'static str)
    ensures
        text@ == iteration_composite_text(iteration),
{
    match iteration {
        IterationCompositeOperation::Replace => "Replace",
        IterationCompositeOperation::Accumulate => "Accumulate",
    }
}

// ── decimal numerals ───────────────────────────────────────────────────────

/// The numeral of one decimal digit.
pub open spec fn digit_text(d: nat) -> Seq<char> {
    if d == 0 {
        "0"@
    } else if d == 1 {
        "1"@
    } else if d == 2 {
        "2"@
    } else if d == 3 {
        "3"@
    } else if d == 4 {
        "4"@
    } else if d == 5 {
        "5"@
    } else if d == 6 {
        "6"@
    } else if d == 7 {
        "7"@
    } else if d == 8 {
        "8"@
    } else {
        "9"@
    }
}

/// The decimal numeral of `n`, most significant digit first, with no
/// leading zeros.
pub open spec fn decimal_text(n: nat) -> Seq<char>
    decreases n,
{
    if n < 10 {
        digit_text(n)
    } else {
        decimal_text(n / 10) + digit_text(n % 10)
    }
}

fn digit_numeral(d: usize) -> (text: &'static str)
    requires
        d < 10,
    ensures
        text@ == digit_text(d as nat),
{
    if d == 0 {
        "0"
    } else if d == 1 {
        "1"
    } else if d == 2 {
        "2"
    } else if d == 3 {
        "3"
    } else if d == 4 {
        "4"
    } else if d == 5 {
        "5"
    } else if d == 6 {
        "6"
    } else if d == 7 {
        "7"
    } else if d == 8 {
        "8"
    } else {
        "9"
    }
}

fn append_decimal(text: &mut String, n: usize)
    ensures
        final(text)@ == old(text)@ + decimal_text(n as nat),
    decreases n,
{
    if n >= 10 {
        append_decimal(text, n / 10);
    }
    text.append(digit_numeral(n % 10));
    proof {
        if n >= 10 {
            assert(old(text)@ + decimal_text((n / 10) as nat) + digit_text((n % 10) as nat) =~= old(text)@
                + decimal_text(n as nat));
        }
    }
}

// ── the sentences ──────────────────────────────────────────────────────────

/// The sentence that reports a refused track.
pub open spec fn track_error_text(error: TrackError) -> Seq<char> {
    match error {
        TrackError::EmptySource => "animation track source identity must not be empty"@,
        TrackError::WrongProperty { source, kind, actual } => "animation track "@ + source@ + " of kind "@
            + track_kind_text(kind) + " cannot target "@ + property_key_text(actual),
        TrackError::InvalidEndpoint { source, kind, endpoint, reason } => "animation track "@ + source@
            + " has invalid "@ + endpoint_text(endpoint) + " endpoint for "@ + track_kind_text(kind) + ": "@
            + domain_error_text(reason),
        TrackError::InvalidKeyframe { source, kind, keyframe_index, reason } => "animation track "@ + source@
            + " has invalid keyframe "@ + decimal_text(keyframe_index as nat) + " for "@ + track_kind_text(kind)
            + ": "@ + domain_error_text(reason),
        TrackError::UnsafeCubicControl { source, kind, segment_index, control, reason } => "animation track "@
            + source@ + " segment "@ + decimal_text(segment_index as nat) + " has an unsafe "@
            + cubic_control_text(control) + " property-space control for "@ + track_kind_text(kind) + ": "@
            + domain_error_text(reason),
        TrackError::InvalidTransformProjection { source, keyframe_index } => "animation track "@ + source@
            + " transform keyframe "@ + decimal_text(keyframe_index as nat)
            + " cannot be represented as a finite affine value"@,
        TrackError::InvalidEffectValue { source, keyframe_index, expected, actual } => "animation track "@
            + source@ + " keyframe "@ + decimal_text(keyframe_index as nat) + " has "@ + value_kind_text(actual)
            + ", expected "@ + value_kind_text(expected),
        TrackError::InvalidPathGeometry { source, keyframe_index, reason } => "animation track "@ + source@
            + " path keyframe "@ + decimal_text(keyframe_index as nat) + " is invalid: "@ + reason@,
        TrackError::InvalidComposition { source, effect, composite, iteration_composite } => "animation track "@
            + source@ + " effect "@ + effect_kind_text(effect) + " does not admit "@ + composite_text(composite)
            + " composition with "@ + iteration_composite_text(iteration_composite) + " iteration composition"@,
    }
}

impl TrackError {
    /// The sentence that reports this refusal.
    pub fn message(&self) -> (text: String)
        ensures
            text@ == track_error_text(*self),
    {
        match self {
            TrackError::EmptySource => String::from_str("animation track source identity must not be empty"),
            TrackError::WrongProperty { source, kind, actual } => {
                let mut text = String::from_str("animation track ");
                text.append(source.as_str());
                text.append(" of kind ");
                text.append(track_kind_name(*kind));
                text.append(" cannot target ");
                text.append(property_key_name(*actual));
                text
            },
            TrackError::InvalidEndpoint { source, kind, endpoint, reason } => {
                let mut text = String::from_str("animation track ");
                text.append(source.as_str());
                text.append(" has invalid ");
                text.append(endpoint_name(*endpoint));
                text.append(" endpoint for ");
                text.append(track_kind_name(*kind));
                text.append(": ");
                text.append(domain_error_name(*reason));
                text
            },
            TrackError::InvalidKeyframe { source, kind, keyframe_index, reason } => {
                let mut text = String::from_str("animation track ");
                text.append(source.as_str());
                text.append(" has invalid keyframe ");
                append_decimal(&mut text, *keyframe_index);
                text.append(" for ");
                text.append(track_kind_name(*kind));
                text.append(": ");
                text.append(domain_error_name(*reason));
                text
            },
            TrackError::UnsafeCubicControl { source, kind, segment_index, control, reason } => {
                let mut text = String::from_str("animation track ");
                text.append(source.as_str());
                text.append(" segment ");
                append_decimal(&mut text, *segment_index);
                text.append(" has an unsafe ");
                text.append(cubic_control_name(*control));
                text.append(" property-space control for ");
                text.append(track_kind_name(*kind));
                text.append(": ");
                text.append(domain_error_name(*reason));
                text
            },
            TrackError::InvalidTransformProjection { source, keyframe_index } => {
                let mut text = String::from_str("animation track ");
                text.append(source.as_str());
                text.append(" transform keyframe ");
                append_decimal(&mut text, *keyframe_index);
                text.append(" cannot be represented as a finite affine value");
                text
            },
            TrackError::InvalidEffectValue { source, keyframe_index, expected, actual } => {
                let mut text = String::from_str("animation track ");
                text.append(source.as_str());
                text.append(" keyframe ");
                append_decimal(&mut text, *keyframe_index);
                text.append(" has ");
                text.append(value_kind_name(*actual));
                text.append(", expected ");
                text.append(value_kind_name(*expected));
                text
            },
            TrackError::InvalidPathGeometry { source, keyframe_index, reason } => {
                let mut text = String::from_str("animation track ");
                text.append(source.as_str());
                text.append(" path keyframe ");
                append_decimal(&mut text, *keyframe_index);
                text.append(" is invalid: ");
                text.append(reason.as_str());
                text
            },
            TrackError::InvalidComposition { source, effect, composite, iteration_composite } => {
                let mut text = String::from_str("animation track ");
                text.append(source.as_str());
                text.append(" effect ");
                text.append(effect_kind_name(*effect));
                text.append(" does not admit ");
                text.append(composite_name(*composite));
                text.append(" composition with ");
                text.append(iteration_composite_name(*iteration_composite));
                text.append(" iteration composition");
                text
            },
        }
    }
}

} // verus!
