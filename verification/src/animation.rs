//! Animation tracks and effect composition: which property a track may
//! target, which composition an effect admits, what a live underlying value
//! must look like before an effect can compose with it, and how the sources
//! implicated in a refusal are reported.

use vstd::prelude::*;
use crate::curves::{find_unsafe_y_control, unsafe_y_control, CubicControl, Easing};
use crate::ident::{Document, NodeKey};
use crate::paint::{BlendMode, Color, Paint, Paints};
use crate::properties::{AnchorEdge, PropertyError, PropertyKey, PropertyTarget, PropertyValueKind};

verus! {

/// One SVG-compatible 2D transform operation kind.
#[derive(Debug, Clone, Copy, PartialEq, Eq, Hash, Structural)]
pub enum TransformKind {
    Translate,
    Scale,
    Rotate,
}

/// The output shape of a track.
#[derive(Debug, Clone, Copy, PartialEq, Eq, Hash, Structural)]
pub enum TrackKind {
    AxisStart,
    FixedSize,
    Opacity,
    /// A complete singleton-solid value for the existing `Fills` aggregate.
    SolidFill,
    LensTransform,
    PathGeometry,
}

/// Trust-boundary ceiling for one exact-rational solid-fill sandwich.
pub const MAX_SOLID_FILL_EFFECTS_PER_TARGET: usize = 256;

/// How one effect combines with the lower-priority sandwich result.
#[derive(Debug, Clone, Copy, PartialEq, Eq, Hash, Structural)]
pub enum CompositeOperation {
    Replace,
    Add,
    /// Interpolate from the live lower sandwich value without cutting it off.
    InterpolateLiveUnderlying,
}

/// How later iterations combine with the effect's simple value.
#[derive(Debug, Clone, Copy, PartialEq, Eq, Hash, Structural)]
pub enum IterationCompositeOperation {
    Replace,
    Accumulate,
}

#[derive(Debug, Clone, Copy, PartialEq, Eq, Hash, Structural)]
pub enum AnimationValueOperation {
    Add,
    Accumulate,
    Project,
}

#[derive(Debug, Clone, Copy, PartialEq, Eq, Hash, Structural)]
pub enum UnderlyingValueShape {
    StartPin,
    CenterPin,
    EndPin,
    AxisSpan,
    FixedSize,
    AutoSize,
    Number,
    EmptyPaints,
    SolidPaint,
    InactiveSolidPaint,
    BlendedSolidPaint,
    NonSolidPaint,
    PaintStack,
    LensOps,
    PathGeometry,
    Other,
}

#[derive(Debug, Clone, Copy, PartialEq, Eq, Hash, Structural)]
pub enum Endpoint {
    From,
    To,
}

#[derive(Debug, Clone, Copy, PartialEq, Eq, Hash, Structural)]
pub enum ScalarDomainError {
    NotFinite,
    Negative,
    OutsideUnitInterval,
    OutsideFiniteBinary32,
}

/// The effect vocabulary a track samples.
#[derive(Debug, Clone, Copy, PartialEq, Eq, Hash, Structural)]
pub enum TrackEffectKind {
    ScalarCurve,
    ScalarFromLiveUnderlying,
    SolidFillCurve,
    SolidFillFromLiveUnderlying,
    TransformCurve,
    PathCurve,
    DiscreteCurve,
    EasedDiscretePair,
}

/// What composition reads of a property value: its variant and, for paints,
/// the ordered paint stack.
#[derive(Debug, Clone, PartialEq, Eq)]
pub enum UnderlyingValue {
    AxisPin { anchor: AnchorEdge },
    AxisSpan,
    FixedSize,
    AutoSize,
    Number,
    Paints(Paints),
    LensOps,
    PathGeometry,
    Other,
}

#[derive(Debug, Clone, Copy, PartialEq, Eq, Hash, Structural)]
pub enum AnimationValueError {
    UnsupportedUnderlying { target: PropertyTarget, expected: TrackKind, actual: UnderlyingValueShape },
    InvalidUnderlying { target: PropertyTarget, kind: TrackKind, reason: ScalarDomainError },
    NonFiniteResult { target: PropertyTarget, operation: AnimationValueOperation },
}

#[allow(inconsistent_fields)]
#[derive(Debug, Clone, PartialEq, Eq)]
pub enum TrackError {
    EmptySource,
    WrongProperty { source: String, kind: TrackKind, actual: PropertyKey },
    InvalidEndpoint { source: String, kind: TrackKind, endpoint: Endpoint, reason: ScalarDomainError },
    InvalidKeyframe { source: String, kind: TrackKind, keyframe_index: usize, reason: ScalarDomainError },
    UnsafeCubicControl {
        source: String,
        kind: TrackKind,
        segment_index: usize,
        control: CubicControl,
        reason: ScalarDomainError,
    },
    InvalidTransformProjection { source: String, keyframe_index: usize },
    InvalidEffectValue {
        source: String,
        keyframe_index: usize,
        expected: PropertyValueKind,
        actual: PropertyValueKind,
    },
    InvalidPathGeometry { source: String, keyframe_index: usize, reason: String },
    InvalidComposition {
        source: String,
        effect: TrackEffectKind,
        composite: CompositeOperation,
        iteration_composite: IterationCompositeOperation,
    },
}

#[allow(inconsistent_fields)]
#[derive(Debug, Clone, PartialEq, Eq)]
pub enum ProgramError {
    EmptyCompilerId,
    DocumentHasNoLiveRoot,
    TooManySolidFillEffects { target: PropertyTarget, count: usize, maximum: usize },
    InvalidEndpoint { source: String, endpoint: Endpoint, error: PropertyError },
    InvalidKeyframe { source: String, keyframe_index: usize, error: PropertyError },
    InvalidValues { sources: Vec<String>, error: PropertyError },
    InvalidComposition { sources: Vec<String>, error: AnimationValueError },
}

// ── track identity and composition ─────────────────────────────────────────

/// The properties a track kind may target.
pub open spec fn property_matches(kind: TrackKind, property: PropertyKey) -> bool {
    match kind {
        TrackKind::AxisStart => property == PropertyKey::X || property == PropertyKey::Y,
        TrackKind::FixedSize => property == PropertyKey::Width || property == PropertyKey::Height,
        TrackKind::Opacity => property == PropertyKey::Opacity,
        TrackKind::SolidFill => property == PropertyKey::Fills,
        TrackKind::LensTransform => property == PropertyKey::LensOps,
        TrackKind::PathGeometry => property == PropertyKey::PathGeometry,
    }
}

/// A track needs a non-empty source identity and a property its kind can
/// produce.
pub fn validate_track_identity(source: &str, target: PropertyTarget, kind: TrackKind) -> (result: Result<(), TrackError>)
    ensures
        source@.len() == 0 ==> result == Err::<(), TrackError>(TrackError::EmptySource),
        source@.len() != 0 && !property_matches(kind, target.property) ==> (result matches Err(
            TrackError::WrongProperty { source: s, kind: k, actual },
        ) && s@ == source@ && k == kind && actual == target.property),
        source@.len() != 0 && property_matches(kind, target.property) ==> result is Ok,
{
    if source.is_empty() {
        return Err(TrackError::EmptySource);
    }
    let property = target.property;
    let matches = match kind {
        TrackKind::AxisStart => property == PropertyKey::X || property == PropertyKey::Y,
        TrackKind::FixedSize => property == PropertyKey::Width || property == PropertyKey::Height,
        TrackKind::Opacity => property == PropertyKey::Opacity,
        TrackKind::SolidFill => property == PropertyKey::Fills,
        TrackKind::LensTransform => property == PropertyKey::LensOps,
        TrackKind::PathGeometry => property == PropertyKey::PathGeometry,
    };
    if !matches {
        return Err(TrackError::WrongProperty { source: source.to_owned(), kind, actual: property });
    }
    Ok(())
}

impl TrackEffectKind {
    /// Which effect and iteration composition pairs are meaningful for this
    /// effect class.
    pub open spec fn spec_admits_composition(
        self,
        composite: CompositeOperation,
        iteration_composite: IterationCompositeOperation,
    ) -> bool {
        match self {
            TrackEffectKind::ScalarCurve | TrackEffectKind::SolidFillCurve
            | TrackEffectKind::TransformCurve => composite != CompositeOperation::InterpolateLiveUnderlying,
            TrackEffectKind::ScalarFromLiveUnderlying
            | TrackEffectKind::SolidFillFromLiveUnderlying => composite
                == CompositeOperation::InterpolateLiveUnderlying && iteration_composite
                == IterationCompositeOperation::Replace,
            TrackEffectKind::PathCurve | TrackEffectKind::DiscreteCurve
            | TrackEffectKind::EasedDiscretePair => composite == CompositeOperation::Replace
                && iteration_composite == IterationCompositeOperation::Replace,
        }
    }

    pub fn admits_composition(
        self,
        composite: CompositeOperation,
        iteration_composite: IterationCompositeOperation,
    ) -> (admitted: bool)
        ensures
            admitted == self.spec_admits_composition(composite, iteration_composite),
    {
        match self {
            TrackEffectKind::ScalarCurve | TrackEffectKind::SolidFillCurve
            | TrackEffectKind::TransformCurve => composite != CompositeOperation::InterpolateLiveUnderlying,
            TrackEffectKind::ScalarFromLiveUnderlying
            | TrackEffectKind::SolidFillFromLiveUnderlying => composite
                == CompositeOperation::InterpolateLiveUnderlying && iteration_composite
                == IterationCompositeOperation::Replace,
            TrackEffectKind::PathCurve | TrackEffectKind::DiscreteCurve
            | TrackEffectKind::EasedDiscretePair => composite == CompositeOperation::Replace
                && iteration_composite == IterationCompositeOperation::Replace,
        }
    }

    pub open spec fn spec_default_composition(self) -> (CompositeOperation, IterationCompositeOperation) {
        match self {
            TrackEffectKind::ScalarFromLiveUnderlying
            | TrackEffectKind::SolidFillFromLiveUnderlying => (
                CompositeOperation::InterpolateLiveUnderlying,
                IterationCompositeOperation::Replace,
            ),
            _ => (CompositeOperation::Replace, IterationCompositeOperation::Replace),
        }
    }

    /// The composition a freshly constructed track of this effect carries.
    pub fn default_composition(self) -> (composition: (CompositeOperation, IterationCompositeOperation))
        ensures
            composition == self.spec_default_composition(),
    {
        match self {
            TrackEffectKind::ScalarFromLiveUnderlying
            | TrackEffectKind::SolidFillFromLiveUnderlying => (
                CompositeOperation::InterpolateLiveUnderlying,
                IterationCompositeOperation::Replace,
            ),
            _ => (CompositeOperation::Replace, IterationCompositeOperation::Replace),
        }
    }
}

/// Every effect admits the composition its constructor gives it.
pub proof fn lemma_default_composition_admitted(effect: TrackEffectKind)
    ensures
        effect.spec_admits_composition(
            effect.spec_default_composition().0,
            effect.spec_default_composition().1,
        ),
{
}

/// Select effect and iteration composition when that pair is meaningful for
/// the effect class; otherwise name the refused pair.
pub fn check_composition(
    source: &str,
    effect: TrackEffectKind,
    composite: CompositeOperation,
    iteration_composite: IterationCompositeOperation,
) -> (result: Result<(), TrackError>)
    ensures
        effect.spec_admits_composition(composite, iteration_composite) ==> result is Ok,
        !effect.spec_admits_composition(composite, iteration_composite) ==> (result matches Err(
            TrackError::InvalidComposition { source: s, effect: e, composite: c, iteration_composite: ic },
        ) && s@ == source@ && e == effect && c == composite && ic == iteration_composite),
{
    if !effect.admits_composition(composite, iteration_composite) {
        return Err(
            TrackError::InvalidComposition {
                source: source.to_owned(),
                effect,
                composite,
                iteration_composite,
            },
        );
    }
    Ok(())
}

/// A composite operation that replaces the lower sandwich value.
pub fn overwrites_underlying(composite: CompositeOperation) -> (overwrites: bool)
    ensures
        overwrites == (composite == CompositeOperation::Replace),
{
    composite == CompositeOperation::Replace
}

/// A composite operation that reads the lower sandwich value.
pub fn needs_underlying(composite: CompositeOperation) -> (needs: bool)
    ensures
        needs == (composite == CompositeOperation::Add || composite
            == CompositeOperation::InterpolateLiveUnderlying),
{
    match composite {
        CompositeOperation::Add | CompositeOperation::InterpolateLiveUnderlying => true,
        CompositeOperation::Replace => false,
    }
}

/// A live-underlying effect's lower endpoint is known only at sample time,
/// so its timing `y` controls must stay in the unit interval: every result
/// is then a convex interpolation between two valid values.
pub fn validate_live_underlying_easing(source: &str, kind: TrackKind, easing: &Easing) -> (result: Result<(), TrackError>)
    ensures
        unsafe_y_control(*easing) is None ==> result is Ok,
        unsafe_y_control(*easing) matches Some(control) ==> (result matches Err(
            TrackError::UnsafeCubicControl { source: s, kind: k, segment_index: 0, control: c, reason },
        ) && s@ == source@ && k == kind && c == control && reason == ScalarDomainError::OutsideUnitInterval),
{
    match find_unsafe_y_control(easing) {
        None => Ok(()),
        Some(control) => Err(
            TrackError::UnsafeCubicControl {
                source: source.to_owned(),
                kind,
                segment_index: 0,
                control,
                reason: ScalarDomainError::OutsideUnitInterval,
            },
        ),
    }
}

// ── underlying values ──────────────────────────────────────────────────────

/// The shape of a paint stack, as composition reports it.
pub open spec fn paints_shape(paints: Seq<Paint>) -> UnderlyingValueShape {
    if paints.len() == 0 {
        UnderlyingValueShape::EmptyPaints
    } else if paints.len() > 1 {
        UnderlyingValueShape::PaintStack
    } else {
        match paints[0] {
            Paint::Solid(solid) => if !solid.active {
                UnderlyingValueShape::InactiveSolidPaint
            } else if solid.blend_mode != BlendMode::Normal {
                UnderlyingValueShape::BlendedSolidPaint
            } else {
                UnderlyingValueShape::SolidPaint
            },
            Paint::NonSolid(_) => UnderlyingValueShape::NonSolidPaint,
        }
    }
}

pub open spec fn spec_underlying_value_shape(value: UnderlyingValue) -> UnderlyingValueShape {
    match value {
        UnderlyingValue::AxisPin { anchor } => match anchor {
            AnchorEdge::Start => UnderlyingValueShape::StartPin,
            AnchorEdge::Center => UnderlyingValueShape::CenterPin,
            AnchorEdge::End => UnderlyingValueShape::EndPin,
        },
        UnderlyingValue::AxisSpan => UnderlyingValueShape::AxisSpan,
        UnderlyingValue::FixedSize => UnderlyingValueShape::FixedSize,
        UnderlyingValue::AutoSize => UnderlyingValueShape::AutoSize,
        UnderlyingValue::Number => UnderlyingValueShape::Number,
        UnderlyingValue::Paints(paints) => paints_shape(paints@),
        UnderlyingValue::LensOps => UnderlyingValueShape::LensOps,
        UnderlyingValue::PathGeometry => UnderlyingValueShape::PathGeometry,
        UnderlyingValue::Other => UnderlyingValueShape::Other,
    }
}

/// Classify a live underlying value for composition diagnostics.
pub fn underlying_value_shape(value: &UnderlyingValue) -> (shape: UnderlyingValueShape)
    ensures
        shape == spec_underlying_value_shape(*value),
{
    match value {
        UnderlyingValue::AxisPin { anchor } => match anchor {
            AnchorEdge::Start => UnderlyingValueShape::StartPin,
            AnchorEdge::Center => UnderlyingValueShape::CenterPin,
            AnchorEdge::End => UnderlyingValueShape::EndPin,
        },
        UnderlyingValue::AxisSpan => UnderlyingValueShape::AxisSpan,
        UnderlyingValue::FixedSize => UnderlyingValueShape::FixedSize,
        UnderlyingValue::AutoSize => UnderlyingValueShape::AutoSize,
        UnderlyingValue::Number => UnderlyingValueShape::Number,
        UnderlyingValue::Paints(paints) => {
            let slice = paints.as_slice();
            if slice.len() == 0 {
                UnderlyingValueShape::EmptyPaints
            } else if slice.len() > 1 {
                UnderlyingValueShape::PaintStack
            } else {
                match slice[0] {
                    Paint::Solid(solid) => {
                        if !solid.active {
                            UnderlyingValueShape::InactiveSolidPaint
                        } else if solid.blend_mode != BlendMode::Normal {
                            UnderlyingValueShape::BlendedSolidPaint
                        } else {
                            UnderlyingValueShape::SolidPaint
                        }
                    },
                    Paint::NonSolid(_) => UnderlyingValueShape::NonSolidPaint,
                }
            }
        },
        UnderlyingValue::LensOps => UnderlyingValueShape::LensOps,
        UnderlyingValue::PathGeometry => UnderlyingValueShape::PathGeometry,
        UnderlyingValue::Other => UnderlyingValueShape::Other,
    }
}

/// The color a solid-fill sandwich starts from: the complete `Fills` value
/// must be exactly one active, normal-blend solid.
pub open spec fn spec_underlying_color(value: UnderlyingValue) -> Option<Color> {
    match value {
        UnderlyingValue::Paints(paints) => if paints@.len() == 1 {
            match paints@[0] {
                Paint::Solid(solid) => if solid.active && solid.blend_mode == BlendMode::Normal {
                    Some(solid.color)
                } else {
                    None
                },
                Paint::NonSolid(_) => None,
            }
        } else {
            None
        },
        _ => None,
    }
}

/// Read the lower color of a solid-fill effect stack.
pub fn underlying_color(kind: TrackKind, target: PropertyTarget, value: &UnderlyingValue) -> (color: Result<Color, AnimationValueError>)
    ensures
        spec_underlying_color(*value) matches Some(c) ==> color == Ok::<Color, AnimationValueError>(c),
        spec_underlying_color(*value) is None ==> color == Err::<Color, AnimationValueError>(
            AnimationValueError::UnsupportedUnderlying {
                target,
                expected: kind,
                actual: spec_underlying_value_shape(*value),
            },
        ),
{
    let unsupported = AnimationValueError::UnsupportedUnderlying {
        target,
        expected: kind,
        actual: underlying_value_shape(value),
    };
    match value {
        UnderlyingValue::Paints(paints) => {
            let slice = paints.as_slice();
            if slice.len() != 1 {
                return Err(unsupported);
            }
            match slice[0] {
                Paint::Solid(solid) => {
                    if solid.active && solid.blend_mode == BlendMode::Normal {
                        Ok(solid.color)
                    } else {
                        Err(unsupported)
                    }
                },
                Paint::NonSolid(_) => Err(unsupported),
            }
        },
        _ => Err(unsupported),
    }
}

// ── reported sources ───────────────────────────────────────────────────────

/// `sources` with later repeats removed, keeping first-occurrence order.
pub open spec fn unique_views(sources: Seq<Seq<char>>) -> Seq<Seq<char>>
    decreases sources.len(),
{
    if sources.len() == 0 {
        Seq::empty()
    } else {
        let kept = unique_views(sources.drop_last());
        if kept.contains(sources.last()) {
            kept
        } else {
            kept.push(sources.last())
        }
    }
}

pub open spec fn string_views(strings: Seq<String>) -> Seq<Seq<char>> {
    strings.map_values(|s: String| s@)
}

fn contains_view(strings: &Vec<String>, candidate: &String) -> (found: bool)
    ensures
        found == string_views(strings@).contains(candidate@),
{
    let mut i: usize = 0;
    while i < strings.len()
        invariant
            i <= strings@.len(),
            forall|j: int| 0 <= j < i ==> strings@[j]@ != candidate@,
        decreases strings@.len() - i,
    {
        if strings[i] == *candidate {
            assert(string_views(strings@)[i as int] == candidate@);
            return true;
        }
        i += 1;
    }
    assert forall|j: int| 0 <= j < string_views(strings@).len() implies string_views(strings@)[j] != candidate@ by {
        assert(string_views(strings@)[j] == strings@[j]@);
    }
    false
}

/// The distinct sources of `sources`, in first-occurrence order.
pub fn unique_sources(sources: &Vec<String>) -> (unique: Vec<String>)
    ensures
        string_views(unique@) == unique_views(string_views(sources@)),
{
    let mut unique: Vec<String> = Vec::new();
    let mut i: usize = 0;
    while i < sources.len()
        invariant
            i <= sources@.len(),
            string_views(unique@) == unique_views(string_views(sources@.take(i as int))),
        decreases sources@.len() - i,
    {
        assert(string_views(sources@.take(i + 1)).drop_last() =~= string_views(sources@.take(i as int)));
        assert(string_views(sources@.take(i + 1)).last() == sources@[i as int]@);
        if !contains_view(&unique, &sources[i]) {
            let source = sources[i].clone();
            let ghost before = unique@;
            unique.push(source);
            assert(string_views(unique@) =~= string_views(before).push(sources@[i as int]@));
        }
        i += 1;
    }
    assert(sources@.take(sources@.len() as int) =~= sources@);
    unique
}

/// The source and target of one contributing track.
#[derive(Debug, Clone, PartialEq, Eq)]
pub struct TrackSource {
    pub source: String,
    pub target: PropertyTarget,
}

/// A refused value set implicates `track` when it names the track's target,
/// or the track's node and one of the properties in the invalid state.
pub open spec fn implicates(error: PropertyError, track: TrackSource) -> bool {
    match error {
        PropertyError::DuplicateTarget { target } => track.target == target,
        PropertyError::StaleTarget { target } => track.target == target,
        PropertyError::WrongValueKind { target, .. } => track.target == target,
        PropertyError::Inapplicable { target } => track.target == target,
        PropertyError::InvalidValue { target } => track.target == target,
        PropertyError::InvalidEffectiveState { node, properties } => track.target.node == node
            && properties@.contains(track.target.property),
    }
}

/// The sources of the implicated tracks, in track order.
pub open spec fn implicated_views(tracks: Seq<TrackSource>, error: PropertyError) -> Seq<Seq<char>>
    decreases tracks.len(),
{
    if tracks.len() == 0 {
        Seq::empty()
    } else {
        let earlier = implicated_views(tracks.drop_last(), error);
        if implicates(error, tracks.last()) {
            earlier.push(tracks.last().source@)
        } else {
            earlier
        }
    }
}

fn implicates_exec(error: &PropertyError, track: &TrackSource) -> (implicated: bool)
    ensures
        implicated == implicates(*error, *track),
{
    match error {
        PropertyError::DuplicateTarget { target } => track.target == *target,
        PropertyError::StaleTarget { target } => track.target == *target,
        PropertyError::WrongValueKind { target, .. } => track.target == *target,
        PropertyError::Inapplicable { target } => track.target == *target,
        PropertyError::InvalidValue { target } => track.target == *target,
        PropertyError::InvalidEffectiveState { node, properties } => {
            if track.target.node != *node {
                return false;
            }
            let mut i: usize = 0;
            while i < properties.len()
                invariant
                    i <= properties@.len(),
                    track.target.node == *node,
                    *error == (PropertyError::InvalidEffectiveState { node: *node, properties: *properties }),
                    forall|j: int| 0 <= j < i ==> properties@[j] != track.target.property,
                decreases properties@.len() - i,
            {
                if properties[i] == track.target.property {
                    assert(properties@[i as int] == track.target.property);
                    return true;
                }
                i += 1;
            }
            false
        },
    }
}

/// The distinct sources of the tracks a refused value set implicates.
pub fn implicated_sources(tracks: &Vec<TrackSource>, error: &PropertyError) -> (sources: Vec<String>)
    ensures
        string_views(sources@) == unique_views(implicated_views(tracks@, *error)),
{
    let mut implicated: Vec<String> = Vec::new();
    let mut i: usize = 0;
    while i < tracks.len()
        invariant
            i <= tracks@.len(),
            string_views(implicated@) == implicated_views(tracks@.take(i as int), *error),
        decreases tracks@.len() - i,
    {
        assert(tracks@.take(i + 1).drop_last() =~= tracks@.take(i as int));
        if implicates_exec(error, &tracks[i]) {
            let ghost before = implicated@;
            implicated.push(tracks[i].source.clone());
            assert(string_views(implicated@) =~= string_views(before).push(tracks@[i as int].source@));
        }
        i += 1;
    }
    assert(tracks@.take(tracks@.len() as int) =~= tracks@);
    unique_sources(&implicated)
}

// ── program identity ───────────────────────────────────────────────────────

/// A program needs a compiler identity and a document with a live root; the
/// root's key binds the program to that document incarnation.
pub fn program_root(document: &Document, compiler_id: &str) -> (root: Result<NodeKey, ProgramError>)
    ensures
        compiler_id@.len() == 0 ==> root == Err::<NodeKey, ProgramError>(ProgramError::EmptyCompilerId),
        compiler_id@.len() != 0 && document.spec_key_of(document.spec_root()) is None ==> root
            == Err::<NodeKey, ProgramError>(ProgramError::DocumentHasNoLiveRoot),
        compiler_id@.len() != 0 && document.spec_key_of(document.spec_root()) is Some ==> root
            == Ok::<NodeKey, ProgramError>(document.spec_key_of(document.spec_root()).unwrap()),
{
    if compiler_id.is_empty() {
        return Err(ProgramError::EmptyCompilerId);
    }
    match document.key_of(document.root()) {
        Some(key) => Ok(key),
        None => Err(ProgramError::DocumentHasNoLiveRoot),
    }
}

/// Sampling is bound to the document incarnation the program was compiled
/// for: the document's live root key must equal the program's.
pub fn document_matches(document: &Document, program_root: NodeKey) -> (matches: bool)
    ensures
        matches == (document.spec_key_of(document.spec_root()) == Some(program_root)),
{
    match document.key_of(document.root()) {
        Some(key) => key == program_root,
        None => false,
    }
}

/// A solid-fill stack of `count` effects stays within the exact-channel
/// ceiling.
pub fn check_solid_fill_stack(target: PropertyTarget, count: usize) -> (result: Result<(), ProgramError>)
    ensures
        count <= MAX_SOLID_FILL_EFFECTS_PER_TARGET ==> result is Ok,
        count > MAX_SOLID_FILL_EFFECTS_PER_TARGET ==> result == Err::<(), ProgramError>(
            ProgramError::TooManySolidFillEffects { target, count, maximum: MAX_SOLID_FILL_EFFECTS_PER_TARGET },
        ),
{
    if count > MAX_SOLID_FILL_EFFECTS_PER_TARGET {
        return Err(
            ProgramError::TooManySolidFillEffects { target, count, maximum: MAX_SOLID_FILL_EFFECTS_PER_TARGET },
        );
    }
    Ok(())
}

/// The one track kind that produces each property: both axis positions are
/// axis starts, both size axes are fixed sizes.
pub open spec fn producing_kind(property: PropertyKey) -> TrackKind {
    match property {
        PropertyKey::X | PropertyKey::Y => TrackKind::AxisStart,
        PropertyKey::Width | PropertyKey::Height => TrackKind::FixedSize,
        PropertyKey::Opacity => TrackKind::Opacity,
        PropertyKey::Fills => TrackKind::SolidFill,
        PropertyKey::LensOps => TrackKind::LensTransform,
        PropertyKey::PathGeometry => TrackKind::PathGeometry,
    }
}

/// A track kind may target a property exactly when it is the kind that
/// produces it: every property has one kind, and each kind admits all the
/// properties it produces (an axis start both `X` and `Y`, a fixed size both
/// `Width` and `Height`).
pub proof fn lemma_each_property_has_its_kind(kind: TrackKind, property: PropertyKey)
    ensures
        property_matches(kind, property) <==> kind == producing_kind(property),
{
}

} // verus!
