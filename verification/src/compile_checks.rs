//! What compiling a program reads of the document it is compiled for, and
//! the refusals it draws from it: every endpoint value of every track must be
//! a valid value of its target, and every effect stack that reads its
//! target's live base value must find one it can compose with. Both are
//! named for the first failing track in program order (target order, then
//! priority order inside a target).
//!
//! The document's property registry judges each value; its verdicts arrive
//! as facts, one record per track. Whether a target is still live is read
//! from the document itself.

use vstd::prelude::*;
use crate::animation::{
    spec_underlying_color, spec_underlying_value_shape, string_views, underlying_color, underlying_value_shape,
    unique_views, AnimationValueError, ProgramError, ScalarDomainError, TrackKind, UnderlyingValue,
};
use crate::curves::{first_index, is_first, lemma_first_index, lemma_first_index_none, lemma_first_index_some};
use crate::ident::Document;
use crate::program::{
    lemma_target_le_antisymmetric, lemma_target_le_total, lemma_target_le_transitive, stale_target, target_le,
    target_le_exec, Track,
};
use crate::properties::{AnchorEdge, PropertyError, PropertyTarget};

verus! {

/// What compiling one track reads of the document: the registry's verdict on
/// each of the track's endpoint values in keyframe order (`None` when the
/// value is accepted), and its target's live base value with the registry's
/// verdicts on it — the scalar domain check for scalar kinds, and the value
/// check for transform lists. Base facts are read from the first track of
/// each target.
#[derive(Debug, Clone, PartialEq, Eq)]
pub struct TrackDocumentFacts {
    pub endpoint_errors: Vec<Option<PropertyError>>,
    pub base: UnderlyingValue,
    pub base_scalar_error: Option<ScalarDomainError>,
    pub base_value_error: Option<PropertyError>,
}

/// One record per track, with one endpoint verdict per keyframe value.
pub open spec fn facts_fit(tracks: Seq<Track>, facts: Seq<TrackDocumentFacts>) -> bool {
    &&& facts.len() == tracks.len()
    &&& forall|i: int|
        0 <= i < tracks.len() ==> (#[trigger] facts[i]).endpoint_errors@.len() == tracks[i].spec_keyframe_count()
}

/// `i` is the first flagged track in program order: its target is the least
/// flagged target, and it is that target's earliest flagged track.
pub open spec fn first_in_program_order(tracks: Seq<Track>, flags: Seq<bool>, i: int) -> bool {
    &&& 0 <= i < tracks.len()
    &&& flags[i]
    &&& forall|j: int|
        0 <= j < tracks.len() && #[trigger] flags[j] ==> target_le(tracks[i].spec_target(), tracks[j].spec_target())
            && (tracks[j].spec_target() == tracks[i].spec_target() ==> i <= j)
}

/// The first flagged track in program order, if any.
fn least_flagged(tracks: &Vec<Track>, flags: &Vec<bool>) -> (found: Option<usize>)
    requires
        flags@.len() == tracks@.len(),
    ensures
        found is None ==> forall|j: int| 0 <= j < tracks@.len() ==> !#[trigger] flags@[j],
        found matches Some(i) ==> first_in_program_order(tracks@, flags@, i as int),
{
    let mut best: Option<usize> = None;
    let mut i: usize = 0;
    while i < tracks.len()
        invariant
            i <= tracks@.len(),
            flags@.len() == tracks@.len(),
            best is None ==> forall|j: int| 0 <= j < i ==> !#[trigger] flags@[j],
            best matches Some(b) ==> b < i && flags@[b as int] && forall|j: int|
                0 <= j < i && #[trigger] flags@[j] ==> target_le(
                    tracks@[b as int].spec_target(),
                    tracks@[j].spec_target(),
                ) && (tracks@[j].spec_target() == tracks@[b as int].spec_target() ==> b <= j),
        decreases tracks@.len() - i,
    {
        if flags[i] {
            let t = tracks[i].target();
            match best {
                None => {
                    proof {
                        lemma_target_le_total(t, t);
                    }
                    best = Some(i);
                },
                Some(b) => {
                    let tb = tracks[b].target();
                    if !target_le_exec(tb, t) {
                        proof {
                            lemma_target_le_total(tb, t);
                            lemma_target_le_total(t, t);
                            assert forall|j: int| 0 <= j < i + 1 && #[trigger] flags@[j] implies target_le(
                                t,
                                tracks@[j].spec_target(),
                            ) && (tracks@[j].spec_target() == t ==> i <= j) by {
                                if j < i {
                                    lemma_target_le_transitive(t, tb, tracks@[j].spec_target());
                                }
                            }
                        }
                        best = Some(i);
                    } else {
                        proof {
                            assert forall|j: int| 0 <= j < i + 1 && #[trigger] flags@[j] implies target_le(
                                tb,
                                tracks@[j].spec_target(),
                            ) && (tracks@[j].spec_target() == tb ==> b <= j) by {}
                        }
                    }
                },
            }
        }
        i += 1;
    }
    best
}

// ── endpoint values ────────────────────────────────────────────────────────

/// The registry's verdict on keyframe value `k` of `track`: a stale target
/// refuses every value.
pub open spec fn endpoint_error(document: Document, track: Track, facts: TrackDocumentFacts, k: int) -> Option<
    PropertyError,
> {
    if stale_target(document, track.spec_target()) {
        Some(PropertyError::StaleTarget { target: track.spec_target() })
    } else {
        facts.endpoint_errors@[k]
    }
}

/// The first refused keyframe value of `track`.
pub open spec fn first_bad_keyframe(document: Document, track: Track, facts: TrackDocumentFacts) -> Option<int> {
    first_index(|k: int| endpoint_error(document, track, facts, k) is Some, 0, track.spec_keyframe_count() as int)
}

/// Which tracks carry a refused endpoint value.
pub open spec fn endpoint_failures(document: Document, tracks: Seq<Track>, facts: Seq<TrackDocumentFacts>) -> Seq<
    bool,
> {
    Seq::new(tracks.len(), |i: int| first_bad_keyframe(document, tracks[i], facts[i]) is Some)
}

fn first_bad_keyframe_of(document: &Document, track: &Track, facts: &TrackDocumentFacts) -> (found: Option<usize>)
    requires
        facts.endpoint_errors@.len() == track.spec_keyframe_count(),
    ensures
        match found {
            None => first_bad_keyframe(*document, *track, *facts) is None,
            Some(k) => first_bad_keyframe(*document, *track, *facts) == Some(k as int),
        },
{
    let ghost p = |k: int| endpoint_error(*document, *track, *facts, k) is Some;
    let count = track.keyframe_count();
    let target = track.target();
    if document.node_for_key(target.node).is_none() {
        if count == 0 {
            proof {
                lemma_first_index_none(p, 0, 0);
            }
            return None;
        }
        proof {
            assert(p(0));
            assert(is_first(p, 0, 0));
            lemma_first_index(p, 0, count as int, 0);
        }
        return Some(0);
    }
    let mut k: usize = 0;
    while k < count
        invariant
            k <= count,
            count == track.spec_keyframe_count(),
            facts.endpoint_errors@.len() == count,
            !stale_target(*document, track.spec_target()),
            p == (|k: int| endpoint_error(*document, *track, *facts, k) is Some),
            forall|j: int| 0 <= j < k ==> !#[trigger] p(j),
        decreases count - k,
    {
        if facts.endpoint_errors[k].is_some() {
            proof {
                assert(p(k as int));
                lemma_first_index(p, 0, count as int, k as int);
            }
            return Some(k);
        }
        k += 1;
    }
    proof {
        lemma_first_index_none(p, 0, count as int);
    }
    None
}

/// The first track in program order with a refused endpoint value, and that
/// value's keyframe index.
pub fn first_endpoint_failure(document: &Document, tracks: &Vec<Track>, facts: &Vec<TrackDocumentFacts>) -> (found:
    Option<(usize, usize)>)
    requires
        facts_fit(tracks@, facts@),
    ensures
        found is None ==> forall|i: int|
            0 <= i < tracks@.len() ==> !#[trigger] endpoint_failures(*document, tracks@, facts@)[i],
        found matches Some((i, k)) ==> first_in_program_order(tracks@, endpoint_failures(*document, tracks@, facts@), i as int)
            && first_bad_keyframe(*document, tracks@[i as int], facts@[i as int]) == Some(k as int),
{
    let mut flags: Vec<bool> = Vec::new();
    let mut i: usize = 0;
    while i < tracks.len()
        invariant
            i <= tracks@.len(),
            facts_fit(tracks@, facts@),
            flags@ == endpoint_failures(*document, tracks@, facts@).take(i as int),
        decreases tracks@.len() - i,
    {
        assert(facts@[i as int].endpoint_errors@.len() == tracks@[i as int].spec_keyframe_count());
        let bad = first_bad_keyframe_of(document, &tracks[i], &facts[i]);
        flags.push(bad.is_some());
        i += 1;
        assert(flags@ =~= endpoint_failures(*document, tracks@, facts@).take(i as int));
    }
    assert(flags@ =~= endpoint_failures(*document, tracks@, facts@));
    match least_flagged(tracks, &flags) {
        None => None,
        Some(i) => {
            assert(facts@[i as int].endpoint_errors@.len() == tracks@[i as int].spec_keyframe_count());
            match first_bad_keyframe_of(document, &tracks[i], &facts[i]) {
                Some(k) => Some((i, k)),
                None => {
                    assert(flags@[i as int]);
                    None
                },
            }
        },
    }
}

// ── live base values ───────────────────────────────────────────────────────

/// No earlier track addresses track `i`'s target: it opens its stack.
pub open spec fn opens_stack(tracks: Seq<Track>, i: int) -> bool {
    forall|j: int| 0 <= j < i ==> (#[trigger] tracks[j]).spec_target() != tracks[i].spec_target()
}

/// The sources of the tracks of `target` that read the live base value, in
/// priority order.
pub open spec fn base_readers(tracks: Seq<Track>, target: PropertyTarget) -> Seq<Seq<char>>
    decreases tracks.len(),
{
    if tracks.len() == 0 {
        Seq::empty()
    } else {
        let earlier = base_readers(tracks.drop_last(), target);
        let last = tracks.last();
        if last.spec_target() == target && last.spec_composite() != crate::animation::CompositeOperation::Replace {
            earlier.push(last.spec_source())
        } else {
            earlier
        }
    }
}

/// A scalar kind can compose with this base value: a start pin for an axis
/// start, a fixed size for a fixed size, a number for opacity.
pub open spec fn scalar_base_admitted(kind: TrackKind, base: UnderlyingValue) -> bool {
    match kind {
        TrackKind::AxisStart => base == UnderlyingValue::AxisPin { anchor: AnchorEdge::Start },
        TrackKind::FixedSize => base == UnderlyingValue::FixedSize,
        TrackKind::Opacity => base == UnderlyingValue::Number,
        _ => false,
    }
}

/// Why a stack of `kind` cannot compose with its base value: a solid fill
/// needs one active normal solid paint; a scalar needs its value shape and
/// an in-domain scalar.
pub open spec fn composition_base_error(kind: TrackKind, target: PropertyTarget, facts: TrackDocumentFacts) -> Option<
    AnimationValueError,
> {
    let unsupported = AnimationValueError::UnsupportedUnderlying {
        target,
        expected: kind,
        actual: spec_underlying_value_shape(facts.base),
    };
    if kind == TrackKind::SolidFill {
        if spec_underlying_color(facts.base) is Some {
            None
        } else {
            Some(unsupported)
        }
    } else if !scalar_base_admitted(kind, facts.base) {
        Some(unsupported)
    } else {
        match facts.base_scalar_error {
            Some(reason) => Some(AnimationValueError::InvalidUnderlying { target, kind, reason }),
            None => None,
        }
    }
}

/// Track `i` opens a stack that reads its base value, and that value is
/// refused: by the registry for a transform list, by composition otherwise.
pub open spec fn stack_fails(tracks: Seq<Track>, facts: Seq<TrackDocumentFacts>, i: int) -> bool {
    let track = tracks[i];
    &&& opens_stack(tracks, i)
    &&& base_readers(tracks, track.spec_target()).len() > 0
    &&& if track.spec_kind() == TrackKind::LensTransform {
        facts[i].base_value_error is Some
    } else {
        composition_base_error(track.spec_kind(), track.spec_target(), facts[i]) is Some
    }
}

pub open spec fn stack_failures(tracks: Seq<Track>, facts: Seq<TrackDocumentFacts>) -> Seq<bool> {
    Seq::new(tracks.len(), |i: int| stack_fails(tracks, facts, i))
}

fn opens_stack_at(tracks: &Vec<Track>, i: usize) -> (opens: bool)
    requires
        i < tracks@.len(),
    ensures
        opens == opens_stack(tracks@, i as int),
{
    let target = tracks[i].target();
    let mut j: usize = 0;
    while j < i
        invariant
            j <= i < tracks@.len(),
            target == tracks@[i as int].spec_target(),
            forall|m: int| 0 <= m < j ==> (#[trigger] tracks@[m]).spec_target() != target,
        decreases i - j,
    {
        if tracks[j].target() == target {
            return false;
        }
        j += 1;
    }
    true
}

/// The sources of the tracks of `target` that read the live base value.
pub fn base_reader_sources(tracks: &Vec<Track>, target: PropertyTarget) -> (sources: Vec<String>)
    ensures
        string_views(sources@) == base_readers(tracks@, target),
{
    let mut sources: Vec<String> = Vec::new();
    let mut k: usize = 0;
    assert(tracks@.take(0) =~= Seq::<Track>::empty());
    while k < tracks.len()
        invariant
            k <= tracks@.len(),
            string_views(sources@) == base_readers(tracks@.take(k as int), target),
        decreases tracks@.len() - k,
    {
        assert(tracks@.take(k + 1).drop_last() =~= tracks@.take(k as int));
        assert(tracks@.take(k + 1).last() == tracks@[k as int]);
        if tracks[k].target() == target && tracks[k].needs_underlying() {
            let ghost before = sources@;
            sources.push(tracks[k].source().to_owned());
            assert(string_views(sources@) =~= string_views(before).push(tracks@[k as int].spec_source()));
        }
        k += 1;
    }
    assert(tracks@.take(tracks@.len() as int) =~= tracks@);
    sources
}

/// Why a stack of `kind` cannot compose with the base value in `facts`.
pub fn composition_base_check(kind: TrackKind, target: PropertyTarget, facts: &TrackDocumentFacts) -> (error: Option<
    AnimationValueError,
>)
    ensures
        error == composition_base_error(kind, target, *facts),
{
    if kind == TrackKind::SolidFill {
        return match underlying_color(kind, target, &facts.base) {
            Ok(_) => None,
            Err(error) => Some(error),
        };
    }
    let admitted = match (kind, &facts.base) {
        (TrackKind::AxisStart, UnderlyingValue::AxisPin { anchor: AnchorEdge::Start }) => true,
        (TrackKind::FixedSize, UnderlyingValue::FixedSize) => true,
        (TrackKind::Opacity, UnderlyingValue::Number) => true,
        _ => false,
    };
    if !admitted {
        return Some(
            AnimationValueError::UnsupportedUnderlying {
                target,
                expected: kind,
                actual: underlying_value_shape(&facts.base),
            },
        );
    }
    match facts.base_scalar_error {
        Some(reason) => Some(AnimationValueError::InvalidUnderlying { target, kind, reason }),
        None => None,
    }
}

/// The first stack in target order whose live base value is refused, by the
/// index of the track that opens it.
pub fn first_stack_failure(tracks: &Vec<Track>, facts: &Vec<TrackDocumentFacts>) -> (found: Option<usize>)
    requires
        facts@.len() == tracks@.len(),
    ensures
        found is None ==> forall|i: int| 0 <= i < tracks@.len() ==> !#[trigger] stack_failures(tracks@, facts@)[i],
        found matches Some(i) ==> first_in_program_order(tracks@, stack_failures(tracks@, facts@), i as int),
{
    let mut flags: Vec<bool> = Vec::new();
    let mut i: usize = 0;
    while i < tracks.len()
        invariant
            i <= tracks@.len(),
            facts@.len() == tracks@.len(),
            flags@ == stack_failures(tracks@, facts@).take(i as int),
        decreases tracks@.len() - i,
    {
        let target = tracks[i].target();
        let kind = tracks[i].kind();
        let fails = if !opens_stack_at(tracks, i) {
            false
        } else if base_reader_sources(tracks, target).len() == 0 {
            false
        } else if kind == TrackKind::LensTransform {
            facts[i].base_value_error.is_some()
        } else {
            composition_base_check(kind, target, &facts[i]).is_some()
        };
        flags.push(fails);
        i += 1;
        assert(flags@ =~= stack_failures(tracks@, facts@).take(i as int));
    }
    assert(flags@ =~= stack_failures(tracks@, facts@));
    least_flagged(tracks, &flags)
}

/// The first refused keyframe of a track is a keyframe, and is refused.
pub proof fn lemma_bad_keyframe_refused(document: Document, track: Track, facts: TrackDocumentFacts, k: int)
    requires
        first_bad_keyframe(document, track, facts) == Some(k),
    ensures
        0 <= k < track.spec_keyframe_count(),
        endpoint_error(document, track, facts, k) is Some,
{
    let p = |j: int| endpoint_error(document, track, facts, j) is Some;
    let hi = track.spec_keyframe_count() as int;
    assert(exists|j: int| 0 <= j < hi && #[trigger] p(j));
    let w = choose|j: int| 0 <= j < hi && #[trigger] p(j);
    lemma_first_index_some(p, 0, hi, w);
}

/// The refusal a failing stack opened by track `i` is named by: the
/// registry's verdict for a transform list, the composition error otherwise,
/// with the distinct sources that read the base value.
pub open spec fn is_stack_refusal(refusal: ProgramError, tracks: Seq<Track>, facts: Seq<TrackDocumentFacts>, i: int) -> bool {
    let track = tracks[i];
    let sources = unique_views(base_readers(tracks, track.spec_target()));
    if track.spec_kind() == TrackKind::LensTransform {
        refusal matches ProgramError::InvalidValues { sources: s, error } && string_views(s@) == sources
            && facts[i].base_value_error == Some(error)
    } else {
        refusal matches ProgramError::InvalidComposition { sources: s, error } && string_views(s@) == sources
            && composition_base_error(track.spec_kind(), track.spec_target(), facts[i]) == Some(error)
    }
}

/// At most one track is first in program order.
pub proof fn lemma_first_in_program_order_unique(tracks: Seq<Track>, flags: Seq<bool>, i: int, j: int)
    requires
        first_in_program_order(tracks, flags, i),
        first_in_program_order(tracks, flags, j),
    ensures
        i == j,
{
    lemma_target_le_antisymmetric(tracks[i].spec_target(), tracks[j].spec_target());
}

} // verus!
