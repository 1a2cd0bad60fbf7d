//! Animation programs: validated tracks grouped into target-major effect
//! stacks.
//!
//! A program orders its tracks by target with a stable sort, so the caller's
//! low-to-high priority order survives inside every effect stack. It refuses
//! any solid-fill stack deeper than the exact-channel ceiling, any endpoint
//! value the document refuses (a stale target refuses them all), and any
//! stack that reads a live base value it cannot compose with.

use vstd::prelude::*;
use crate::animation::{
    check_composition, document_matches, needs_underlying, overwrites_underlying, program_root,
    property_matches, string_views, unique_sources, unique_views, validate_track_identity,
    CompositeOperation, Endpoint, IterationCompositeOperation, ProgramError, TrackEffectKind, TrackError, TrackKind,
    MAX_SOLID_FILL_EFFECTS_PER_TARGET,
};
use crate::compile_checks::{
    base_reader_sources, composition_base_check, endpoint_error, endpoint_failures, facts_fit, first_bad_keyframe,
    first_endpoint_failure, first_in_program_order, first_stack_failure, is_stack_refusal,
    lemma_bad_keyframe_refused, stack_failures, TrackDocumentFacts,
};
use crate::curves::{first_index, is_first, lemma_first_index, lemma_first_index_none};
use crate::ident::{Document, NodeKey};
use crate::properties::{PropertyError, PropertyKey, PropertyTarget};

verus! {

// ── target order ───────────────────────────────────────────────────────────

/// The declaration order of the animatable properties.
pub open spec fn property_rank(property: PropertyKey) -> int {
    match property {
        PropertyKey::X => 0,
        PropertyKey::Y => 1,
        PropertyKey::Width => 2,
        PropertyKey::Height => 3,
        PropertyKey::Opacity => 4,
        PropertyKey::Fills => 5,
        PropertyKey::LensOps => 6,
        PropertyKey::PathGeometry => 7,
    }
}

/// Targets ordered by node key (incarnation, slot, generation), then by
/// property.
pub open spec fn target_le(a: PropertyTarget, b: PropertyTarget) -> bool {
    if a.node.incarnation != b.node.incarnation {
        a.node.incarnation < b.node.incarnation
    } else if a.node.slot != b.node.slot {
        a.node.slot < b.node.slot
    } else if a.node.generation != b.node.generation {
        a.node.generation < b.node.generation
    } else {
        property_rank(a.property) <= property_rank(b.property)
    }
}

pub proof fn lemma_target_le_total(a: PropertyTarget, b: PropertyTarget)
    ensures
        target_le(a, a),
        target_le(a, b) || target_le(b, a),
{
}

pub proof fn lemma_target_le_antisymmetric(a: PropertyTarget, b: PropertyTarget)
    requires
        target_le(a, b),
        target_le(b, a),
    ensures
        a == b,
{
    assert(a.property == b.property) by {
        match a.property {
            PropertyKey::X => {},
            PropertyKey::Y => {},
            PropertyKey::Width => {},
            PropertyKey::Height => {},
            PropertyKey::Opacity => {},
            PropertyKey::Fills => {},
            PropertyKey::LensOps => {},
            PropertyKey::PathGeometry => {},
        }
    }
    assert(a.node == b.node);
}

pub proof fn lemma_target_le_transitive(a: PropertyTarget, b: PropertyTarget, c: PropertyTarget)
    requires
        target_le(a, b),
        target_le(b, c),
    ensures
        target_le(a, c),
{
}

fn property_rank_exec(property: PropertyKey) -> (rank: u8)
    ensures
        rank == property_rank(property),
{
    match property {
        PropertyKey::X => 0,
        PropertyKey::Y => 1,
        PropertyKey::Width => 2,
        PropertyKey::Height => 3,
        PropertyKey::Opacity => 4,
        PropertyKey::Fills => 5,
        PropertyKey::LensOps => 6,
        PropertyKey::PathGeometry => 7,
    }
}

pub fn target_le_exec(a: PropertyTarget, b: PropertyTarget) -> (le: bool)
    ensures
        le == target_le(a, b),
{
    if a.node.incarnation != b.node.incarnation {
        a.node.incarnation < b.node.incarnation
    } else if a.node.slot != b.node.slot {
        a.node.slot < b.node.slot
    } else if a.node.generation != b.node.generation {
        a.node.generation < b.node.generation
    } else {
        property_rank_exec(a.property) <= property_rank_exec(b.property)
    }
}

// ── tracks ─────────────────────────────────────────────────────────────────

/// The effect classes each track kind can carry.
pub open spec fn effect_fits(kind: TrackKind, effect: TrackEffectKind) -> bool {
    match effect {
        TrackEffectKind::ScalarCurve | TrackEffectKind::ScalarFromLiveUnderlying => kind
            == TrackKind::AxisStart || kind == TrackKind::FixedSize || kind == TrackKind::Opacity,
        TrackEffectKind::SolidFillCurve | TrackEffectKind::SolidFillFromLiveUnderlying => kind
            == TrackKind::SolidFill,
        TrackEffectKind::TransformCurve => kind == TrackKind::LensTransform,
        TrackEffectKind::PathCurve | TrackEffectKind::DiscreteCurve
        | TrackEffectKind::EasedDiscretePair => kind == TrackKind::PathGeometry,
    }
}

/// The schedule-relevant part of one animation track: its source identity,
/// the property it animates, its output kind, its effect class, and how it
/// composes with lower-priority effects.
#[derive(Debug)]
pub struct Track {
    source: String,
    target: PropertyTarget,
    kind: TrackKind,
    effect: TrackEffectKind,
    composite: CompositeOperation,
    iteration_composite: IterationCompositeOperation,
    keyframe_count: usize,
}

/// Effects whose lower endpoint is the live underlying value: they carry one
/// endpoint of their own, the `to` value.
pub open spec fn is_live_underlying(effect: TrackEffectKind) -> bool {
    effect == TrackEffectKind::ScalarFromLiveUnderlying || effect == TrackEffectKind::SolidFillFromLiveUnderlying
}

impl Track {
    /// The number of complete property values the track's keyframes carry.
    pub closed spec fn spec_keyframe_count(&self) -> usize {
        self.keyframe_count
    }

    pub closed spec fn spec_source(&self) -> Seq<char> {
        self.source@
    }

    pub closed spec fn spec_target(&self) -> PropertyTarget {
        self.target
    }

    pub closed spec fn spec_kind(&self) -> TrackKind {
        self.kind
    }

    pub closed spec fn spec_effect(&self) -> TrackEffectKind {
        self.effect
    }

    pub closed spec fn spec_composite(&self) -> CompositeOperation {
        self.composite
    }

    pub closed spec fn spec_iteration_composite(&self) -> IterationCompositeOperation {
        self.iteration_composite
    }

    /// What every constructed track satisfies.
    pub open spec fn wf(&self) -> bool {
        &&& self.spec_source().len() != 0
        &&& property_matches(self.spec_kind(), self.spec_target().property)
        &&& effect_fits(self.spec_kind(), self.spec_effect())
        &&& self.spec_effect().spec_admits_composition(self.spec_composite(), self.spec_iteration_composite())
    }

    /// A track of `kind` carrying an `effect` of a fitting class, with the
    /// effect's default composition. The source must be non-empty and the
    /// target property one the kind produces.
    pub fn new(
        source: String,
        target: PropertyTarget,
        kind: TrackKind,
        effect: TrackEffectKind,
        keyframe_count: usize,
    ) -> (track: Result<Track, TrackError>)
        requires
            effect_fits(kind, effect),
            keyframe_count >= 1,
            is_live_underlying(effect) ==> keyframe_count == 1,
        ensures
            source@.len() == 0 ==> track == Err::<Track, TrackError>(TrackError::EmptySource),
            source@.len() != 0 && !property_matches(kind, target.property) ==> (track matches Err(
                TrackError::WrongProperty { source: s, kind: k, actual },
            ) && s@ == source@ && k == kind && actual == target.property),
            source@.len() != 0 && property_matches(kind, target.property) ==> (track matches Ok(t) && t.wf()
                && t.spec_source() == source@ && t.spec_target() == target && t.spec_kind() == kind
                && t.spec_effect() == effect && t.spec_keyframe_count() == keyframe_count
                && (t.spec_composite(), t.spec_iteration_composite()) == effect.spec_default_composition()),
    {
        match validate_track_identity(source.as_str(), target, kind) {
            Err(error) => Err(error),
            Ok(()) => {
                let (composite, iteration_composite) = effect.default_composition();
                proof {
                    crate::animation::lemma_default_composition_admitted(effect);
                }
                Ok(Track { source, target, kind, effect, composite, iteration_composite, keyframe_count })
            },
        }
    }

    /// Select effect and iteration composition when that pair is meaningful
    /// for this effect class; otherwise name the refused pair.
    pub fn with_composition(
        self,
        composite: CompositeOperation,
        iteration_composite: IterationCompositeOperation,
    ) -> (track: Result<Track, TrackError>)
        requires
            self.wf(),
        ensures
            self.spec_effect().spec_admits_composition(composite, iteration_composite) ==> (track matches Ok(t)
                && t.wf() && t.spec_source() == self.spec_source() && t.spec_target() == self.spec_target()
                && t.spec_kind() == self.spec_kind() && t.spec_effect() == self.spec_effect()
                && t.spec_keyframe_count() == self.spec_keyframe_count()
                && t.spec_composite() == composite && t.spec_iteration_composite() == iteration_composite),
            !self.spec_effect().spec_admits_composition(composite, iteration_composite) ==> (track matches Err(
                TrackError::InvalidComposition { source: s, effect: e, composite: c, iteration_composite: ic },
            ) && s@ == self.spec_source() && e == self.spec_effect() && c == composite && ic
                == iteration_composite),
    {
        match check_composition(self.source.as_str(), self.effect, composite, iteration_composite) {
            Err(error) => Err(error),
            Ok(()) => Ok(Track { composite, iteration_composite, ..self }),
        }
    }

    pub fn source(&self) -> (source: &str)
        ensures
            source@ == self.spec_source(),
    {
        self.source.as_str()
    }

    pub fn target(&self) -> (target: PropertyTarget)
        ensures
            target == self.spec_target(),
    {
        self.target
    }

    pub fn kind(&self) -> (kind: TrackKind)
        ensures
            kind == self.spec_kind(),
    {
        self.kind
    }

    pub fn effect_kind(&self) -> (effect: TrackEffectKind)
        ensures
            effect == self.spec_effect(),
    {
        self.effect
    }

    pub fn composite(&self) -> (composite: CompositeOperation)
        ensures
            composite == self.spec_composite(),
    {
        self.composite
    }

    pub fn iteration_composite(&self) -> (iteration_composite: IterationCompositeOperation)
        ensures
            iteration_composite == self.spec_iteration_composite(),
    {
        self.iteration_composite
    }

    pub fn keyframe_count(&self) -> (count: usize)
        ensures
            count == self.spec_keyframe_count(),
    {
        self.keyframe_count
    }

    /// This effect replaces the lower sandwich value.
    pub fn overwrites_underlying(&self) -> (overwrites: bool)
        ensures
            overwrites == (self.spec_composite() == CompositeOperation::Replace),
    {
        overwrites_underlying(self.composite)
    }

    /// This effect reads the lower sandwich value.
    pub fn needs_underlying(&self) -> (needs: bool)
        ensures
            needs == (self.spec_composite() != CompositeOperation::Replace),
    {
        needs_underlying(self.composite)
    }
}

// ── stable grouping by target ──────────────────────────────────────────────

/// The tracks addressing `target`, in their relative order.
pub open spec fn with_target(tracks: Seq<Track>, target: PropertyTarget) -> Seq<Track>
    decreases tracks.len(),
{
    if tracks.len() == 0 {
        Seq::empty()
    } else {
        let earlier = with_target(tracks.drop_last(), target);
        if tracks.last().spec_target() == target {
            earlier.push(tracks.last())
        } else {
            earlier
        }
    }
}

/// Targets never decrease along the sequence.
pub open spec fn sorted_by_target(tracks: Seq<Track>) -> bool {
    forall|i: int, j: int|
        0 <= i < j < tracks.len() ==> target_le(#[trigger] tracks[i].spec_target(), #[trigger] tracks[j].spec_target())
}

/// `sorted` is the stable target sort of `tracks`: ordered by target, with
/// the tracks of every target in their given relative order.
pub open spec fn is_stable_target_sort(sorted: Seq<Track>, tracks: Seq<Track>) -> bool {
    &&& sorted_by_target(sorted)
    &&& sorted.len() == tracks.len()
    &&& forall|target: PropertyTarget| #[trigger] with_target(sorted, target) == with_target(tracks, target)
}

pub proof fn lemma_with_target_concat(a: Seq<Track>, b: Seq<Track>, target: PropertyTarget)
    ensures
        with_target(a + b, target) == with_target(a, target) + with_target(b, target),
    decreases b.len(),
{
    if b.len() == 0 {
        assert(a + b =~= a);
        assert(with_target(b, target) =~= Seq::<Track>::empty());
        assert(with_target(a, target) + with_target(b, target) =~= with_target(a, target));
    } else {
        assert((a + b).drop_last() =~= a + b.drop_last());
        lemma_with_target_concat(a, b.drop_last(), target);
        if b.last().spec_target() == target {
            assert(with_target(a, target) + with_target(b, target) =~= (with_target(a, target) + with_target(
                b.drop_last(),
                target,
            )).push(b.last()));
        }
    }
}

proof fn lemma_with_target_none(tracks: Seq<Track>, target: PropertyTarget)
    requires
        forall|i: int| 0 <= i < tracks.len() ==> (#[trigger] tracks[i]).spec_target() != target,
    ensures
        with_target(tracks, target) == Seq::<Track>::empty(),
    decreases tracks.len(),
{
    if tracks.len() > 0 {
        lemma_with_target_none(tracks.drop_last(), target);
    }
}

proof fn lemma_with_target_all(tracks: Seq<Track>, target: PropertyTarget)
    requires
        forall|i: int| 0 <= i < tracks.len() ==> (#[trigger] tracks[i]).spec_target() == target,
    ensures
        with_target(tracks, target) == tracks,
    decreases tracks.len(),
{
    if tracks.len() > 0 {
        lemma_with_target_all(tracks.drop_last(), target);
        assert(tracks.drop_last().push(tracks.last()) =~= tracks);
    }
}

proof fn lemma_with_target_single(track: Track, target: PropertyTarget)
    ensures
        with_target(seq![track], target) == (if track.spec_target() == target {
            seq![track]
        } else {
            Seq::<Track>::empty()
        }),
{
    let single = seq![track];
    assert(single.drop_last() =~= Seq::<Track>::empty());
    assert(single.last() == track);
    assert(with_target(single.drop_last(), target) =~= Seq::<Track>::empty());
    if track.spec_target() == target {
        assert(Seq::<Track>::empty().push(track) =~= single);
    }
}

/// A target with tracks occurs in the sequence.
proof fn lemma_with_target_occurs(tracks: Seq<Track>, target: PropertyTarget)
    requires
        with_target(tracks, target).len() > 0,
    ensures
        exists|i: int| 0 <= i < tracks.len() && (#[trigger] tracks[i]).spec_target() == target,
    decreases tracks.len(),
{
    if tracks.last().spec_target() != target {
        lemma_with_target_occurs(tracks.drop_last(), target);
        let i = choose|i: int| 0 <= i < tracks.drop_last().len() && (#[trigger] tracks.drop_last()[i]).spec_target()
            == target;
        assert(tracks[i] == tracks.drop_last()[i]);
    } else {
        assert(tracks[tracks.len() - 1].spec_target() == target);
    }
}

/// In a target-sorted sequence, the tracks of one target form one run.
proof fn lemma_run(tracks: Seq<Track>, start: int, end: int, target: PropertyTarget)
    requires
        sorted_by_target(tracks),
        0 <= start < end <= tracks.len(),
        forall|j: int| start <= j < end ==> (#[trigger] tracks[j]).spec_target() == target,
        start == 0 || tracks[start - 1].spec_target() != target,
        end == tracks.len() || tracks[end].spec_target() != target,
    ensures
        with_target(tracks, target) == tracks.subrange(start, end),
{
    let before = tracks.subrange(0, start);
    let run = tracks.subrange(start, end);
    let after = tracks.subrange(end, tracks.len() as int);
    assert(tracks =~= before + run + after);
    assert forall|j: int| 0 <= j < before.len() implies (#[trigger] before[j]).spec_target() != target by {
        let last = tracks[start - 1].spec_target();
        if j < start - 1 {
            assert(target_le(tracks[j].spec_target(), last));
        }
        lemma_target_le_total(last, last);
        assert(target_le(last, tracks[start].spec_target()));
        if before[j].spec_target() == target {
            lemma_target_le_antisymmetric(last, target);
        }
    }
    assert forall|j: int| 0 <= j < after.len() implies (#[trigger] after[j]).spec_target() != target by {
        let first = tracks[end].spec_target();
        if j > 0 {
            assert(target_le(first, tracks[end + j].spec_target()));
        }
        lemma_target_le_total(first, first);
        assert(target_le(tracks[end - 1].spec_target(), first));
        if after[j].spec_target() == target {
            lemma_target_le_antisymmetric(first, target);
        }
    }
    assert forall|j: int| 0 <= j < run.len() implies (#[trigger] run[j]).spec_target() == target by {
        assert(run[j] == tracks[start + j]);
    }
    lemma_with_target_none(before, target);
    lemma_with_target_none(after, target);
    lemma_with_target_all(run, target);
    lemma_with_target_concat(before + run, after, target);
    lemma_with_target_concat(before, run, target);
    assert(with_target(tracks, target) =~= run);
}

proof fn lemma_with_target_last(tracks: Seq<Track>)
    requires
        tracks.len() > 0,
    ensures
        with_target(tracks, tracks.last().spec_target()) == with_target(
            tracks.drop_last(),
            tracks.last().spec_target(),
        ).push(tracks.last()),
        forall|target: PropertyTarget|
            target != tracks.last().spec_target() ==> #[trigger] with_target(tracks, target) == with_target(
                tracks.drop_last(),
                target,
            ),
{
}

/// The order a stable target sort produces is unique: two stable target
/// sorts of the same tracks are the same sequence, so a program's
/// target-major order is determined by the caller's tracks alone.
pub proof fn lemma_stable_target_sort_unique(a: Seq<Track>, b: Seq<Track>, tracks: Seq<Track>)
    requires
        is_stable_target_sort(a, tracks),
        is_stable_target_sort(b, tracks),
    ensures
        a == b,
{
    lemma_sorted_with_equal_groups(a, b);
}

#[verifier::spinoff_prover]
#[verifier::rlimit(40)]
proof fn lemma_sorted_with_equal_groups(a: Seq<Track>, b: Seq<Track>)
    requires
        sorted_by_target(a),
        sorted_by_target(b),
        a.len() == b.len(),
        forall|target: PropertyTarget| #[trigger] with_target(a, target) == with_target(b, target),
    ensures
        a == b,
    decreases a.len(),
{
    if a.len() == 0 {
        assert(a =~= b);
    } else {
        let ta = a.last().spec_target();
        let tb = b.last().spec_target();
        lemma_with_target_last(a);
        lemma_with_target_last(b);
        assert(with_target(b, ta).len() > 0) by {
            assert(with_target(a, ta) == with_target(b, ta));
        }
        assert(with_target(a, tb).len() > 0) by {
            assert(with_target(a, tb) == with_target(b, tb));
        }
        lemma_with_target_occurs(b, ta);
        lemma_with_target_occurs(a, tb);
        let i = choose|i: int| 0 <= i < b.len() && (#[trigger] b[i]).spec_target() == ta;
        let j = choose|j: int| 0 <= j < a.len() && (#[trigger] a[j]).spec_target() == tb;
        lemma_target_le_total(ta, ta);
        lemma_target_le_total(tb, tb);
        if i < b.len() - 1 {
            assert(target_le(b[i].spec_target(), b[b.len() - 1].spec_target()));
        }
        if j < a.len() - 1 {
            assert(target_le(a[j].spec_target(), a[a.len() - 1].spec_target()));
        }
        lemma_target_le_antisymmetric(ta, tb);
        assert(with_target(a, ta) == with_target(b, ta));
        assert(a.last() == with_target(a, ta).last());
        assert(b.last() == with_target(b, ta).last());
        let ra = a.drop_last();
        let rb = b.drop_last();
        assert forall|target: PropertyTarget| #[trigger] with_target(ra, target) == with_target(rb, target) by {
            assert(with_target(a, target) == with_target(b, target));
            if target == ta {
                assert(with_target(ra, target) =~= with_target(a, target).drop_last());
                assert(with_target(rb, target) =~= with_target(b, target).drop_last());
            }
        }
        assert forall|x: int, y: int| 0 <= x < y < ra.len() implies target_le(
            #[trigger] ra[x].spec_target(),
            #[trigger] ra[y].spec_target(),
        ) by {
            assert(ra[x] == a[x] && ra[y] == a[y]);
        }
        assert forall|x: int, y: int| 0 <= x < y < rb.len() implies target_le(
            #[trigger] rb[x].spec_target(),
            #[trigger] rb[y].spec_target(),
        ) by {
            assert(rb[x] == b[x] && rb[y] == b[y]);
        }
        lemma_sorted_with_equal_groups(ra, rb);
        assert(a =~= ra.push(a.last()));
        assert(b =~= rb.push(b.last()));
    }
}

/// The number of tracks `sorted` holds before the first track whose target
/// sorts after `target`.
fn insertion_point(sorted: &Vec<Track>, target: PropertyTarget) -> (point: usize)
    requires
        sorted_by_target(sorted@),
    ensures
        point <= sorted.len(),
        forall|j: int| 0 <= j < point ==> target_le((#[trigger] sorted@[j]).spec_target(), target),
        forall|j: int| point <= j < sorted.len() ==> !target_le((#[trigger] sorted@[j]).spec_target(), target),
{
    let mut point: usize = 0;
    while point < sorted.len()
        invariant
            point <= sorted.len(),
            sorted_by_target(sorted@),
            forall|j: int| 0 <= j < point ==> target_le((#[trigger] sorted@[j]).spec_target(), target),
        decreases sorted.len() - point,
    {
        if !target_le_exec(sorted[point].target, target) {
            assert forall|j: int| point <= j < sorted.len() implies !target_le(
                (#[trigger] sorted@[j]).spec_target(),
                target,
            ) by {
                if j > point && target_le(sorted@[j].spec_target(), target) {
                    lemma_target_le_transitive(
                        sorted@[point as int].spec_target(),
                        sorted@[j].spec_target(),
                        target,
                    );
                }
            }
            return point;
        }
        point += 1;
    }
    point
}

/// Stable sort by target: insertion after every track whose target sorts
/// no later.
fn sort_by_target(tracks: Vec<Track>) -> (sorted: Vec<Track>)
    ensures
        is_stable_target_sort(sorted@, tracks@),
{
    let ghost input = tracks@;
    let mut rest = tracks;
    let mut sorted: Vec<Track> = Vec::new();
    let ghost mut taken: int = 0;
    assert(input.take(0) =~= Seq::<Track>::empty());
    while rest.len() > 0
        invariant
            0 <= taken <= input.len(),
            rest@ == input.skip(taken),
            sorted@.len() == taken,
            sorted_by_target(sorted@),
            forall|target: PropertyTarget| #[trigger] with_target(sorted@, target) == with_target(input.take(taken), target),
        decreases rest.len(),
    {
        let ghost old_rest = rest@;
        let ghost old_sorted = sorted@;
        let track = rest.remove(0);
        assert(track == input[taken]);
        let point = insertion_point(&sorted, track.target);
        sorted.insert(point, track);
        let ghost n = old_sorted.len() as int;
        let ghost before = old_sorted.subrange(0, point as int);
        let ghost after = old_sorted.subrange(point as int, n);
        assert(old_sorted =~= before + after);
        assert(sorted@ =~= before + seq![track] + after);
        assert(input.take(taken + 1) =~= input.take(taken).push(track));
        assert forall|target: PropertyTarget| #[trigger] with_target(sorted@, target) == with_target(
            input.take(taken + 1),
            target,
        ) by {
            lemma_with_target_concat(before, after, target);
            lemma_with_target_concat(before + seq![track], after, target);
            lemma_with_target_concat(before, seq![track], target);
            lemma_with_target_single(track, target);
            assert(input.take(taken).push(track).drop_last() =~= input.take(taken));
            if target == track.spec_target() {
                assert forall|j: int| 0 <= j < after.len() implies (#[trigger] after[j]).spec_target() != target by {
                    assert(after[j] == old_sorted[point + j]);
                    lemma_target_le_total(target, target);
                }
                lemma_with_target_none(after, target);
                assert(with_target(sorted@, target) =~= with_target(old_sorted, target).push(track));
            } else {
                assert(with_target(sorted@, target) =~= with_target(old_sorted, target));
            }
        }
        assert forall|i: int, j: int| 0 <= i < j < sorted@.len() implies target_le(
            #[trigger] sorted@[i].spec_target(),
            #[trigger] sorted@[j].spec_target(),
        ) by {
            let p = point as int;
            if i < p && j > p {
                assert(sorted@[i] == old_sorted[i]);
                assert(sorted@[j] == old_sorted[j - 1]);
            } else if i == p && j > p {
                assert(sorted@[j] == old_sorted[j - 1]);
                lemma_target_le_total(old_sorted[j - 1].spec_target(), track.spec_target());
            } else if i > p {
                assert(sorted@[i] == old_sorted[i - 1]);
                assert(sorted@[j] == old_sorted[j - 1]);
            } else if j < p {
                assert(sorted@[i] == old_sorted[i]);
                assert(sorted@[j] == old_sorted[j]);
            } else {
                assert(sorted@[i] == old_sorted[i]);
            }
        }
        proof {
            taken = taken + 1;
        }
        assert(rest@ =~= input.skip(taken));
    }
    assert(input.take(taken) =~= input);
    sorted
}


// ── effect stacks ──────────────────────────────────────────────────────────

/// The stack of `target` is a solid-fill stack deeper than the exact-channel
/// ceiling.
pub open spec fn oversized(tracks: Seq<Track>, target: PropertyTarget) -> bool {
    let stack = with_target(tracks, target);
    stack.len() > MAX_SOLID_FILL_EFFECTS_PER_TARGET && stack[0].spec_kind() == TrackKind::SolidFill
}

/// The first oversized stack of a target-sorted sequence, in target order,
/// with its depth.
fn first_oversized_stack(tracks: &Vec<Track>) -> (found: Option<(PropertyTarget, usize)>)
    requires
        sorted_by_target(tracks@),
    ensures
        found is None ==> forall|target: PropertyTarget| !oversized(tracks@, target),
        found matches Some((target, count)) ==> oversized(tracks@, target) && count == with_target(
            tracks@,
            target,
        ).len() && forall|other: PropertyTarget| oversized(tracks@, other) ==> target_le(target, other),
{
    let n = tracks.len();
    let mut start: usize = 0;
    while start < n
        invariant
            n == tracks.len(),
            start <= n,
            sorted_by_target(tracks@),
            start == 0 || start == n || tracks@[start - 1].spec_target() != tracks@[start as int].spec_target(),
            forall|j: int| 0 <= j < start ==> !oversized(tracks@, (#[trigger] tracks@[j]).spec_target()),
        decreases n - start,
    {
        let target = tracks[start].target;
        let mut end: usize = start + 1;
        while end < n && tracks[end].target == target
            invariant
                n == tracks.len(),
                start < end <= n,
                target == tracks@[start as int].spec_target(),
                forall|j: int| start <= j < end ==> (#[trigger] tracks@[j]).spec_target() == target,
            decreases n - end,
        {
            end += 1;
        }
        proof {
            lemma_run(tracks@, start as int, end as int, target);
        }
        if tracks[start].kind == TrackKind::SolidFill && end - start > MAX_SOLID_FILL_EFFECTS_PER_TARGET {
            assert(with_target(tracks@, target)[0] == tracks@[start as int]);
            assert forall|other: PropertyTarget| oversized(tracks@, other) implies target_le(target, other) by {
                lemma_with_target_occurs(tracks@, other);
                let j = choose|j: int| 0 <= j < tracks@.len() && (#[trigger] tracks@[j]).spec_target() == other;
                if j < start {
                    assert(!oversized(tracks@, tracks@[j].spec_target()));
                } else if j > start {
                    assert(target_le(tracks@[start as int].spec_target(), tracks@[j].spec_target()));
                } else {
                    lemma_target_le_total(target, target);
                }
            }
            return Some((target, end - start));
        }
        assert(with_target(tracks@, target)[0] == tracks@[start as int]);
        assert forall|j: int| 0 <= j < end implies !oversized(tracks@, (#[trigger] tracks@[j]).spec_target()) by {
            if j >= start {
                assert(tracks@[j].spec_target() == target);
            }
        }
        start = end;
    }
    assert forall|target: PropertyTarget| !oversized(tracks@, target) by {
        if oversized(tracks@, target) {
            lemma_with_target_occurs(tracks@, target);
            let j = choose|j: int| 0 <= j < tracks@.len() && (#[trigger] tracks@[j]).spec_target() == target;
            assert(!oversized(tracks@, tracks@[j].spec_target()));
        }
    }
    None
}

/// How a refused endpoint value of `track` is named: a live-underlying
/// effect's one endpoint is its `to`; a two-keyframe track names `from` for
/// its first value; a curve names the keyframe index.
pub open spec fn is_endpoint_refusal(refusal: ProgramError, track: Track, keyframe_index: usize, error: PropertyError) -> bool {
    if is_live_underlying(track.spec_effect()) {
        refusal matches ProgramError::InvalidEndpoint { source, endpoint, error: e } && source@ == track.spec_source()
            && endpoint == Endpoint::To && e == error
    } else if track.spec_keyframe_count() == 2 {
        refusal matches ProgramError::InvalidEndpoint { source, endpoint, error: e } && source@ == track.spec_source()
            && endpoint == (if keyframe_index == 0 {
            Endpoint::From
        } else {
            Endpoint::To
        }) && e == error
    } else {
        refusal matches ProgramError::InvalidKeyframe { source, keyframe_index: k, error: e } && source@
            == track.spec_source() && k == keyframe_index && e == error
    }
}

fn endpoint_refusal(track: &Track, keyframe_index: usize, error: PropertyError) -> (refusal: ProgramError)
    ensures
        is_endpoint_refusal(refusal, *track, keyframe_index, error),
{
    let live = match track.effect {
        TrackEffectKind::ScalarFromLiveUnderlying | TrackEffectKind::SolidFillFromLiveUnderlying => true,
        _ => false,
    };
    if live {
        ProgramError::InvalidEndpoint { source: track.source.clone(), endpoint: Endpoint::To, error }
    } else if track.keyframe_count == 2 {
        let endpoint = if keyframe_index == 0 {
            Endpoint::From
        } else {
            Endpoint::To
        };
        ProgramError::InvalidEndpoint { source: track.source.clone(), endpoint, error }
    } else {
        ProgramError::InvalidKeyframe { source: track.source.clone(), keyframe_index, error }
    }
}

/// The refusal an endpoint failure of track `i` is named by: its first
/// refused keyframe and that value's verdict.
pub open spec fn names_endpoint_failure(
    refusal: ProgramError,
    document: Document,
    tracks: Seq<Track>,
    facts: Seq<TrackDocumentFacts>,
    i: int,
) -> bool {
    match first_bad_keyframe(document, tracks[i], facts[i]) {
        Some(k) => is_endpoint_refusal(refusal, tracks[i], k as usize, endpoint_error(document, tracks[i], facts[i], k).unwrap()),
        None => false,
    }
}

/// The refusal the document draws against a program's tracks, before any
/// stack ceiling: the first refused endpoint value in program order, else
/// the first stack in target order whose live base value is refused.
fn document_refusal(document: &Document, tracks: &Vec<Track>, facts: Vec<TrackDocumentFacts>) -> (refusal: Option<
    ProgramError,
>)
    requires
        facts_fit(tracks@, facts@),
    ensures
        (refusal is None) == ((forall|i: int| 0 <= i < tracks@.len() ==> !#[trigger] endpoint_failures(*document, tracks@, facts@)[i])
            && (forall|i: int| 0 <= i < tracks@.len() ==> !#[trigger] stack_failures(tracks@, facts@)[i])),
        (exists|i: int| 0 <= i < tracks@.len() && #[trigger] endpoint_failures(*document, tracks@, facts@)[i])
            ==> (refusal matches Some(r) && exists|i: int|
            first_in_program_order(tracks@, endpoint_failures(*document, tracks@, facts@), i) && names_endpoint_failure(
                r,
                *document,
                tracks@,
                facts@,
                i,
            )),
        (forall|i: int| 0 <= i < tracks@.len() ==> !#[trigger] endpoint_failures(*document, tracks@, facts@)[i]) && (
        exists|i: int| 0 <= i < tracks@.len() && #[trigger] stack_failures(tracks@, facts@)[i]) ==> (refusal matches Some(
            r,
        ) && exists|i: int| first_in_program_order(tracks@, stack_failures(tracks@, facts@), i) && is_stack_refusal(
            r,
            tracks@,
            facts@,
            i,
        )),
{
    let ghost given = facts@;
    match first_endpoint_failure(document, tracks, &facts) {
        Some((i, k)) => {
            let track = &tracks[i];
            let target = track.target;
            proof {
                lemma_bad_keyframe_refused(*document, tracks@[i as int], given[i as int], k as int);
            }
            let error = if document.node_for_key(target.node).is_none() {
                PropertyError::StaleTarget { target }
            } else {
                let mut facts = facts;
                let mut record = facts.remove(i);
                assert(record == given[i as int]);
                let verdict = record.endpoint_errors.remove(k);
                match verdict {
                    Some(error) => error,
                    None => {
                        proof {
                            assert(false);
                        }
                        PropertyError::StaleTarget { target }
                    },
                }
            };
            let refusal = endpoint_refusal(track, k, error);
            assert(names_endpoint_failure(refusal, *document, tracks@, given, i as int));
            Some(refusal)
        },
        None => {
            match first_stack_failure(tracks, &facts) {
                None => None,
                Some(i) => {
                    let track = &tracks[i];
                    let target = track.target;
                    let kind = track.kind;
                    let sources = unique_sources(&base_reader_sources(tracks, target));
                    assert(stack_failures(tracks@, given)[i as int]);
                    if kind == TrackKind::LensTransform {
                        let mut facts = facts;
                        let record = facts.remove(i);
                        assert(record == given[i as int]);
                        match record.base_value_error {
                            Some(error) => {
                                let refusal = ProgramError::InvalidValues { sources, error };
                                assert(is_stack_refusal(refusal, tracks@, given, i as int));
                                Some(refusal)
                            },
                            None => None,
                        }
                    } else {
                        match composition_base_check(kind, target, &facts[i]) {
                            Some(error) => {
                                let refusal = ProgramError::InvalidComposition { sources, error };
                                assert(is_stack_refusal(refusal, tracks@, given, i as int));
                                Some(refusal)
                            },
                            None => None,
                        }
                    }
                },
            }
        },
    }
}

/// Maximal runs of one target, as `[start, end)` index ranges in order.
pub open spec fn is_stack_partition(tracks: Seq<Track>, stacks: Seq<(usize, usize)>) -> bool {
    &&& tracks.len() == 0 <==> stacks.len() == 0
    &&& stacks.len() > 0 ==> stacks[0].0 == 0 && stacks.last().1 == tracks.len()
    &&& forall|r: int| 0 <= r < stacks.len() ==> (#[trigger] stacks[r]).0 < stacks[r].1 <= tracks.len()
    &&& forall|r: int| 0 < r < stacks.len() ==> (#[trigger] stacks[r]).0 == stacks[r - 1].1
    &&& forall|r: int, i: int|
        0 <= r < stacks.len() && stacks[r].0 <= i < stacks[r].1 ==> (#[trigger] tracks[i]).spec_target()
            == tracks[(#[trigger] stacks[r]).0 as int].spec_target()
    &&& forall|r: int|
        0 < r < stacks.len() ==> tracks[(#[trigger] stacks[r]).0 - 1].spec_target() != tracks[stacks[r].0 as int].spec_target()
}

/// A program compiled for one document incarnation: its compiler identity,
/// the document root's key, and its tracks in target-major order.
#[derive(Debug)]
pub struct AnimationProgram {
    compiler_id: String,
    document_root: NodeKey,
    tracks: Vec<Track>,
}

impl AnimationProgram {
    pub closed spec fn spec_compiler_id(&self) -> Seq<char> {
        self.compiler_id@
    }

    pub closed spec fn spec_document_root(&self) -> NodeKey {
        self.document_root
    }

    pub closed spec fn spec_tracks(&self) -> Seq<Track> {
        self.tracks@
    }

    /// A compiled program: a compiler identity and target-major tracks.
    pub open spec fn wf(&self) -> bool {
        self.spec_compiler_id().len() != 0 && sorted_by_target(self.spec_tracks())
    }

    /// Group `tracks_low_to_high_priority` into target-major effect stacks
    /// that keep the caller's priority order, binding the program to the
    /// document's live root. `document_facts` carries, per track, the
    /// document's verdicts on its endpoint values and its target's live base
    /// value. Refuses, in order: an empty compiler identity; a document
    /// without a live root; any solid-fill stack deeper than the
    /// exact-channel ceiling (the first in target order); a refused endpoint
    /// value — a stale target refuses every value — named for the first
    /// failing track in program order and its first refused keyframe; and a
    /// stack reading its live base value that cannot compose with it (the
    /// first in target order), naming the distinct sources that read it.
    pub fn new(
        document: &Document,
        compiler_id: String,
        tracks_low_to_high_priority: Vec<Track>,
        document_facts: Vec<TrackDocumentFacts>,
    ) -> (program: Result<Self, ProgramError>)
        requires
            facts_fit(tracks_low_to_high_priority@, document_facts@),
        ensures
            compiler_id@.len() == 0 ==> program == Err::<Self, ProgramError>(ProgramError::EmptyCompilerId),
            compiler_id@.len() != 0 && document.spec_key_of(document.spec_root()) is None ==> program
                == Err::<Self, ProgramError>(ProgramError::DocumentHasNoLiveRoot),
            compiler_id@.len() != 0 && document.spec_key_of(document.spec_root()) is Some ==> ((program is Ok)
                == ((forall|target: PropertyTarget| !oversized(tracks_low_to_high_priority@, target)) && (forall|i: int|
                0 <= i < tracks_low_to_high_priority@.len() ==> !#[trigger] endpoint_failures(
                    *document,
                    tracks_low_to_high_priority@,
                    document_facts@,
                )[i]) && (forall|i: int|
                0 <= i < tracks_low_to_high_priority@.len() ==> !#[trigger] stack_failures(
                    tracks_low_to_high_priority@,
                    document_facts@,
                )[i]))),
            compiler_id@.len() != 0 && document.spec_key_of(document.spec_root()) is Some && (exists|
                target: PropertyTarget,
            | oversized(tracks_low_to_high_priority@, target)) ==> program is Err && program->Err_0
                is TooManySolidFillEffects,
            compiler_id@.len() != 0 && document.spec_key_of(document.spec_root()) is Some && (forall|
                target: PropertyTarget,
            | !oversized(tracks_low_to_high_priority@, target)) && (exists|i: int|
                0 <= i < tracks_low_to_high_priority@.len() && #[trigger] endpoint_failures(
                    *document,
                    tracks_low_to_high_priority@,
                    document_facts@,
                )[i]) ==> program is Err && exists|i: int|
                first_in_program_order(
                    tracks_low_to_high_priority@,
                    endpoint_failures(*document, tracks_low_to_high_priority@, document_facts@),
                    i,
                ) && names_endpoint_failure(
                    program->Err_0,
                    *document,
                    tracks_low_to_high_priority@,
                    document_facts@,
                    i,
                ),
            compiler_id@.len() != 0 && document.spec_key_of(document.spec_root()) is Some && (forall|
                target: PropertyTarget,
            | !oversized(tracks_low_to_high_priority@, target)) && (forall|i: int|
                0 <= i < tracks_low_to_high_priority@.len() ==> !#[trigger] endpoint_failures(
                    *document,
                    tracks_low_to_high_priority@,
                    document_facts@,
                )[i]) && (exists|i: int|
                0 <= i < tracks_low_to_high_priority@.len() && #[trigger] stack_failures(
                    tracks_low_to_high_priority@,
                    document_facts@,
                )[i]) ==> program is Err && exists|i: int|
                first_in_program_order(
                    tracks_low_to_high_priority@,
                    stack_failures(tracks_low_to_high_priority@, document_facts@),
                    i,
                ) && is_stack_refusal(program->Err_0, tracks_low_to_high_priority@, document_facts@, i),
            program matches Ok(p) ==> p.wf() && p.spec_compiler_id() == compiler_id@ && Some(p.spec_document_root())
                == document.spec_key_of(document.spec_root()) && is_stable_target_sort(
                p.spec_tracks(),
                tracks_low_to_high_priority@,
            ),
            program matches Err(ProgramError::TooManySolidFillEffects { target, count, maximum }) ==> compiler_id@.len()
                != 0 && document.spec_key_of(document.spec_root()) is Some && oversized(
                tracks_low_to_high_priority@,
                target,
            ) && count == with_target(tracks_low_to_high_priority@, target).len() && maximum
                == MAX_SOLID_FILL_EFFECTS_PER_TARGET && forall|other: PropertyTarget|
                oversized(tracks_low_to_high_priority@, other) ==> target_le(target, other),
    {
        let document_root = match program_root(document, compiler_id.as_str()) {
            Ok(root) => root,
            Err(error) => return Err(error),
        };
        let ghost input = tracks_low_to_high_priority@;
        let ghost facts = document_facts@;
        let refusal = document_refusal(document, &tracks_low_to_high_priority, document_facts);
        let tracks = sort_by_target(tracks_low_to_high_priority);
        match first_oversized_stack(&tracks) {
            Some((target, count)) => {
                assert(with_target(tracks@, target) == with_target(input, target));
                assert(oversized(input, target));
                Err(
                    ProgramError::TooManySolidFillEffects {
                        target,
                        count,
                        maximum: MAX_SOLID_FILL_EFFECTS_PER_TARGET,
                    },
                )
            },
            None => {
                assert forall|target: PropertyTarget| !oversized(input, target) by {
                    assert(!oversized(tracks@, target));
                    assert(with_target(tracks@, target) == with_target(input, target));
                }
                match refusal {
                    Some(refusal) => Err(refusal),
                    None => Ok(AnimationProgram { compiler_id, document_root, tracks }),
                }
            },
        }
    }

    /// A program without tracks.
    pub fn empty(document: &Document, compiler_id: String) -> (program: Result<Self, ProgramError>)
        ensures
            compiler_id@.len() == 0 ==> program == Err::<Self, ProgramError>(ProgramError::EmptyCompilerId),
            compiler_id@.len() != 0 && document.spec_key_of(document.spec_root()) is None ==> program
                == Err::<Self, ProgramError>(ProgramError::DocumentHasNoLiveRoot),
            compiler_id@.len() != 0 && document.spec_key_of(document.spec_root()) is Some ==> (program matches Ok(p)
                && p.wf() && p.spec_compiler_id() == compiler_id@ && Some(p.spec_document_root()) == document.spec_key_of(
                document.spec_root(),
            ) && p.spec_tracks().len() == 0),
    {
        let program = Self::new(document, compiler_id, Vec::new(), Vec::new());
        proof {
            assert forall|target: PropertyTarget| !oversized(Seq::<Track>::empty(), target) by {
                assert(with_target(Seq::<Track>::empty(), target).len() == 0);
            }
        }
        program
    }

    pub fn compiler_id(&self) -> (id: &str)
        ensures
            id@ == self.spec_compiler_id(),
    {
        self.compiler_id.as_str()
    }

    pub fn document_root(&self) -> (root: NodeKey)
        ensures
            root == self.spec_document_root(),
    {
        self.document_root
    }

    pub fn tracks(&self) -> (tracks: &[Track])
        ensures
            tracks@ == self.spec_tracks(),
    {
        self.tracks.as_slice()
    }

    /// Target-major effect stacks as index ranges into [`Self::tracks`];
    /// tracks inside each range are ordered from lowest to highest priority.
    pub fn effect_stacks(&self) -> (stacks: Vec<(usize, usize)>)
        ensures
            is_stack_partition(self.spec_tracks(), stacks@),
    {
        let tracks = &self.tracks;
        let n = tracks.len();
        let mut stacks: Vec<(usize, usize)> = Vec::new();
        let mut start: usize = 0;
        while start < n
            invariant
                n == tracks.len(),
                start <= n,
                stacks.len() == 0 <==> start == 0,
                stacks.len() > 0 ==> stacks@[0].0 == 0 && stacks@.last().1 == start,
                start > 0 && start < n ==> tracks@[start - 1].spec_target() != tracks@[start as int].spec_target(),
                forall|r: int| 0 <= r < stacks.len() ==> (#[trigger] stacks@[r]).0 < stacks@[r].1 <= start,
                forall|r: int| 0 < r < stacks.len() ==> (#[trigger] stacks@[r]).0 == stacks@[r - 1].1,
                forall|r: int, i: int|
                    0 <= r < stacks.len() && stacks@[r].0 <= i < stacks@[r].1 ==> (#[trigger] tracks@[i]).spec_target()
                        == tracks@[(#[trigger] stacks@[r]).0 as int].spec_target(),
                forall|r: int|
                    0 < r < stacks.len() ==> tracks@[(#[trigger] stacks@[r]).0 - 1].spec_target()
                        != tracks@[stacks@[r].0 as int].spec_target(),
            decreases n - start,
        {
            let target = tracks[start].target;
            let mut end: usize = start + 1;
            while end < n && tracks[end].target == target
                invariant
                    n == tracks.len(),
                    start < end <= n,
                    target == tracks@[start as int].spec_target(),
                    forall|j: int| start <= j < end ==> (#[trigger] tracks@[j]).spec_target() == target,
                decreases n - end,
            {
                end += 1;
            }
            let ghost old_stacks = stacks@;
            stacks.push((start, end));
            assert forall|r: int, i: int|
                0 <= r < stacks.len() && stacks@[r].0 <= i < stacks@[r].1 implies (#[trigger] tracks@[i]).spec_target()
                    == tracks@[(#[trigger] stacks@[r]).0 as int].spec_target() by {
                if r < old_stacks.len() {
                    assert(stacks@[r] == old_stacks[r]);
                }
            }
            assert forall|r: int|
                0 < r < stacks.len() implies tracks@[(#[trigger] stacks@[r]).0 - 1].spec_target()
                    != tracks@[stacks@[r].0 as int].spec_target() by {
                if r < old_stacks.len() {
                    assert(stacks@[r] == old_stacks[r]);
                }
            }
            start = end;
        }
        stacks
    }
}

/// The time a sample was asked for, in nanoseconds.
#[derive(Debug, Clone, Copy, PartialEq, Eq, Hash, Structural)]
pub struct SampleTime {
    pub nanoseconds: i64,
}

/// Why a program refuses to sample a document before any track is sampled:
/// the document is another incarnation, or an effect stack's target no
/// longer names a live node its property applies to. Each refusal names the
/// time the sample was asked for.
#[allow(inconsistent_fields)]
#[derive(Debug, Clone, PartialEq, Eq)]
pub enum SampleError {
    DocumentMismatch { compiler_id: String, time: SampleTime, expected: NodeKey, actual: Option<NodeKey> },
    InvalidValues { compiler_id: String, time: SampleTime, sources: Vec<String>, error: PropertyError },
}

/// The target's node key no longer names a live node of the document.
pub open spec fn stale_target(document: Document, target: PropertyTarget) -> bool {
    document.spec_key_of(target.node.slot) != Some(target.node)
}

/// The sources of the tracks, in order.
pub open spec fn source_views(tracks: Seq<Track>) -> Seq<Seq<char>> {
    tracks.map_values(|track: Track| track.spec_source())
}

/// Per-track applicability flags describe targets: tracks addressing one
/// target carry one flag.
pub open spec fn flags_follow_targets(tracks: Seq<Track>, applicable: Seq<bool>) -> bool {
    &&& applicable.len() == tracks.len()
    &&& forall|i: int, j: int|
        0 <= i < tracks.len() && 0 <= j < tracks.len() && tracks[i].spec_target() == tracks[j].spec_target()
            ==> applicable[i] == applicable[j]
}

/// Track `i`'s target is refused: stale, or its property does not apply to
/// its node.
pub open spec fn target_refused(document: Document, tracks: Seq<Track>, applicable: Seq<bool>, i: int) -> bool {
    stale_target(document, tracks[i].spec_target()) || !applicable[i]
}

/// The refusal named for track `i`'s target.
pub open spec fn target_refusal(document: Document, tracks: Seq<Track>, i: int) -> PropertyError {
    if stale_target(document, tracks[i].spec_target()) {
        PropertyError::StaleTarget { target: tracks[i].spec_target() }
    } else {
        PropertyError::Inapplicable { target: tracks[i].spec_target() }
    }
}

impl AnimationProgram {
    /// Program validity does not depend on contribution state: before any
    /// track is sampled, the document must be the program's incarnation and
    /// every effect stack's target must still name a live node whose kind
    /// its property applies to (`applicable`, one flag per track, as the
    /// property registry decides). The first refused stack in target order
    /// is named with its distinct sources, so a stale or inapplicable target
    /// never silently turns a sample into the base value.
    pub fn check_sample_targets(&self, document: &Document, time: SampleTime, applicable: &Vec<bool>) -> (checked: Result<
        (),
        SampleError,
    >)
        requires
            self.wf(),
            flags_follow_targets(self.spec_tracks(), applicable@),
        ensures
            document.spec_key_of(document.spec_root()) != Some(self.spec_document_root()) ==> (checked matches Err(
                SampleError::DocumentMismatch { compiler_id, time: t, expected, actual },
            ) && compiler_id@ == self.spec_compiler_id() && t == time && expected == self.spec_document_root() && actual
                == document.spec_key_of(document.spec_root())),
            document.spec_key_of(document.spec_root()) == Some(self.spec_document_root()) ==> match first_index(
                |i: int| target_refused(*document, self.spec_tracks(), applicable@, i),
                0,
                self.spec_tracks().len() as int,
            ) {
                None => checked is Ok,
                Some(i) => checked matches Err(SampleError::InvalidValues { compiler_id, time: t, sources, error })
                    && compiler_id@ == self.spec_compiler_id() && t == time && string_views(sources@) == unique_views(
                    source_views(with_target(self.spec_tracks(), self.spec_tracks()[i].spec_target())),
                ) && error == target_refusal(*document, self.spec_tracks(), i),
            },
    {
        if !document_matches(document, self.document_root) {
            return Err(
                SampleError::DocumentMismatch {
                    compiler_id: self.compiler_id.clone(),
                    time,
                    expected: self.document_root,
                    actual: document.key_of(document.root()),
                },
            );
        }
        let tracks = &self.tracks;
        let ghost p = |i: int| target_refused(*document, tracks@, applicable@, i);
        let n = tracks.len();
        let mut start: usize = 0;
        while start < n
            invariant
                n == tracks.len(),
                start <= n,
                sorted_by_target(tracks@),
                tracks@ == self.spec_tracks(),
                flags_follow_targets(tracks@, applicable@),
                document.spec_key_of(document.spec_root()) == Some(self.spec_document_root()),
                start == 0 || start == n || tracks@[start - 1].spec_target() != tracks@[start as int].spec_target(),
                p == (|i: int| target_refused(*document, tracks@, applicable@, i)),
                forall|j: int| 0 <= j < start ==> !#[trigger] p(j),
            decreases n - start,
        {
            let target = tracks[start].target;
            let mut end: usize = start + 1;
            while end < n && tracks[end].target == target
                invariant
                    n == tracks.len(),
                    start < end <= n,
                    target == tracks@[start as int].spec_target(),
                    forall|j: int| start <= j < end ==> (#[trigger] tracks@[j]).spec_target() == target,
                decreases n - end,
            {
                end += 1;
            }
            let stale = document.node_for_key(target.node).is_none();
            if stale || !applicable[start] {
                let mut sources: Vec<String> = Vec::new();
                let mut k: usize = start;
                while k < end
                    invariant
                        start <= k <= end,
                        end <= tracks.len(),
                        string_views(sources@) == source_views(tracks@.subrange(start as int, k as int)),
                    decreases end - k,
                {
                    let ghost before = sources@;
                    sources.push(tracks[k].source.clone());
                    assert(string_views(sources@) =~= string_views(before).push(tracks@[k as int].spec_source()));
                    assert(tracks@.subrange(start as int, k + 1) =~= tracks@.subrange(start as int, k as int).push(
                        tracks@[k as int],
                    ));
                    k += 1;
                }
                proof {
                    lemma_run(tracks@, start as int, end as int, target);
                    assert(p(start as int));
                    lemma_first_index(p, 0, n as int, start as int);
                }
                let error = if stale {
                    PropertyError::StaleTarget { target }
                } else {
                    PropertyError::Inapplicable { target }
                };
                return Err(
                    SampleError::InvalidValues {
                        compiler_id: self.compiler_id.clone(),
                        time,
                        sources: unique_sources(&sources),
                        error,
                    },
                );
            }
            assert forall|j: int| 0 <= j < end implies !#[trigger] p(j) by {
                if j >= start {
                    assert(tracks@[j].spec_target() == target);
                    assert(applicable@[j] == applicable@[start as int]);
                }
            }
            start = end;
        }
        proof {
            lemma_first_index_none(p, 0, n as int);
        }
        Ok(())
    }
}

/// The last contributing track in `[start, end)` that replaces the lower
/// value.
pub open spec fn last_replacing(tracks: Seq<Track>, contributing: Seq<bool>, start: int, end: int) -> Option<int>
    decreases end - start,
{
    if end <= start {
        None
    } else if contributing[end - 1] && tracks[end - 1].spec_composite() == CompositeOperation::Replace {
        Some(end - 1)
    } else {
        last_replacing(tracks, contributing, start, end - 1)
    }
}

/// The first contributing track in `[start, end)`.
pub open spec fn first_contributing(contributing: Seq<bool>, start: int, end: int) -> Option<int>
    decreases end - start,
{
    if end <= start {
        None
    } else {
        match first_contributing(contributing, start, end - 1) {
            Some(i) => Some(i),
            None => if contributing[end - 1] {
                Some(end - 1)
            } else {
                None
            },
        }
    }
}

/// What one effect stack contributes to a sample: nothing when none of its
/// tracks contributes; otherwise its target and its influential range, from
/// its last contributing replacement (or its first contributing track) to
/// its end. The contributing tracks of that range compose the value.
pub open spec fn stack_entry(tracks: Seq<Track>, contributing: Seq<bool>, stack: (usize, usize)) -> Option<
    (PropertyTarget, usize, usize),
> {
    match first_contributing(contributing, stack.0 as int, stack.1 as int) {
        None => None,
        Some(first) => Some(
            (
                tracks[stack.0 as int].spec_target(),
                match last_replacing(tracks, contributing, stack.0 as int, stack.1 as int) {
                    Some(replacing) => replacing as usize,
                    None => first as usize,
                },
                stack.1,
            ),
        ),
    }
}

/// The entries of the stacks, in order.
pub open spec fn stack_entries(tracks: Seq<Track>, contributing: Seq<bool>, stacks: Seq<(usize, usize)>) -> Seq<
    (PropertyTarget, usize, usize),
>
    decreases stacks.len(),
{
    if stacks.len() == 0 {
        Seq::empty()
    } else {
        let earlier = stack_entries(tracks, contributing, stacks.drop_last());
        match stack_entry(tracks, contributing, stacks.last()) {
            Some(entry) => earlier.push(entry),
            None => earlier,
        }
    }
}

impl AnimationProgram {
    /// The atomic shape of one sample, given which tracks contribute at the
    /// sample time (`contributing`, one flag per track): the document and
    /// every target are checked first, whatever contributes, so a stale or
    /// inapplicable target refuses the complete value set; then every stack
    /// with a contributing track yields one entry naming its target and its
    /// influential range, and no other entry is made.
    #[verifier::spinoff_prover]
    #[verifier::rlimit(40)]
    pub fn sample_entries(&self, document: &Document, time: SampleTime, applicable: &Vec<bool>, contributing: &Vec<bool>) -> (r: Result<
        Vec<(PropertyTarget, usize, usize)>,
        SampleError,
    >)
        requires
            self.wf(),
            flags_follow_targets(self.spec_tracks(), applicable@),
            contributing@.len() == self.spec_tracks().len(),
        ensures
            document.spec_key_of(document.spec_root()) != Some(self.spec_document_root()) ==> (r matches Err(
                SampleError::DocumentMismatch { compiler_id, time: t, expected, actual },
            ) && compiler_id@ == self.spec_compiler_id() && t == time && expected == self.spec_document_root() && actual
                == document.spec_key_of(document.spec_root())),
            document.spec_key_of(document.spec_root()) == Some(self.spec_document_root()) ==> match first_index(
                |i: int| target_refused(*document, self.spec_tracks(), applicable@, i),
                0,
                self.spec_tracks().len() as int,
            ) {
                None => r matches Ok(entries) && exists|stacks: Seq<(usize, usize)>|
                    is_stack_partition(self.spec_tracks(), stacks) && entries@ == stack_entries(
                        self.spec_tracks(),
                        contributing@,
                        stacks,
                    ),
                Some(i) => r matches Err(SampleError::InvalidValues { compiler_id, time: t, sources, error })
                    && compiler_id@ == self.spec_compiler_id() && t == time && string_views(sources@) == unique_views(
                    source_views(with_target(self.spec_tracks(), self.spec_tracks()[i].spec_target())),
                ) && error == target_refusal(*document, self.spec_tracks(), i),
            },
    {
        match self.check_sample_targets(document, time, applicable) {
            Err(error) => return Err(error),
            Ok(()) => {},
        }
        let stacks = self.effect_stacks();
        let tracks = &self.tracks;
        let mut entries: Vec<(PropertyTarget, usize, usize)> = Vec::new();
        let mut r: usize = 0;
        while r < stacks.len()
            invariant
                r <= stacks.len(),
                tracks@ == self.spec_tracks(),
                contributing@.len() == tracks@.len(),
                is_stack_partition(tracks@, stacks@),
                entries@ == stack_entries(tracks@, contributing@, stacks@.take(r as int)),
            decreases stacks.len() - r,
        {
            let (start, end) = stacks[r];
            assert(stacks@[r as int].0 < stacks@[r as int].1 <= tracks@.len());
            let mut first: Option<usize> = None;
            let mut replacing: Option<usize> = None;
            let mut i: usize = start;
            while i < end
                invariant
                    start <= i <= end,
                    end <= tracks@.len(),
                    contributing@.len() == tracks@.len(),
                    first == (match first_contributing(contributing@, start as int, i as int) {
                        Some(k) => Some(k as usize),
                        None => None::<usize>,
                    }),
                    first_contributing(contributing@, start as int, i as int) matches Some(k) ==> start <= k < i,
                    replacing == (match last_replacing(tracks@, contributing@, start as int, i as int) {
                        Some(k) => Some(k as usize),
                        None => None::<usize>,
                    }),
                    last_replacing(tracks@, contributing@, start as int, i as int) matches Some(k) ==> start <= k < i,
                decreases end - i,
            {
                if contributing[i] {
                    if first.is_none() {
                        first = Some(i);
                    }
                    if tracks[i].overwrites_underlying() {
                        replacing = Some(i);
                    }
                }
                i += 1;
            }
            assert(stacks@.take(r + 1).drop_last() =~= stacks@.take(r as int));
            if let Some(first_index) = first {
                let begin = match replacing {
                    Some(k) => k,
                    None => first_index,
                };
                entries.push((tracks[start].target, begin, end));
            }
            r += 1;
        }
        assert(stacks@.take(stacks@.len() as int) =~= stacks@);
        Ok(entries)
    }
}

/// Where the influential part of a sampled stack begins: at its last effect
/// that replaces the lower value, or at its bottom when none does.
pub fn influential_start(stack: &[Track]) -> (start: usize)
    ensures
        (exists|i: int| 0 <= i < stack@.len() && (#[trigger] stack@[i]).spec_composite() == CompositeOperation::Replace)
            ==> start < stack@.len() && stack@[start as int].spec_composite() == CompositeOperation::Replace,
        forall|i: int| start < i < stack@.len() ==> (#[trigger] stack@[i]).spec_composite() != CompositeOperation::Replace,
        (forall|i: int| 0 <= i < stack@.len() ==> (#[trigger] stack@[i]).spec_composite() != CompositeOperation::Replace)
            ==> start == 0,
{
    let mut i: usize = stack.len();
    while i > 0
        invariant
            i <= stack@.len(),
            forall|j: int| i <= j < stack@.len() ==> (#[trigger] stack@[j]).spec_composite() != CompositeOperation::Replace,
        decreases i,
    {
        if stack[i - 1].overwrites_underlying() {
            return i - 1;
        }
        i -= 1;
    }
    0
}

} // verus!
