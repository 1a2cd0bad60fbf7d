//! Compiling one already-resolved, source-neutral frame into the private
//! item stream: every refusal is named (never a silent wrong pixel), owners
//! share one namespace, and scopes lower onto balanced begin and end items
//! inside the frame's own clip.
//!
//! The frame arrives as facts: floating-point validations (bounds,
//! transforms, exact contract bounds), the outcome of compiling each nested
//! pattern frame, and the backend preflights (clip, mask, filter and
//! gradient) come in as their outcomes. A scope's opacity travels as the bit
//! pattern of its binary32 value and is carried unchanged.

use vstd::string::StringExecFns;

use vstd::prelude::*;

verus! {

/// The opaque identity and provenance of one visual.
#[derive(Debug, Clone, Copy, PartialEq, Eq, Hash, Structural)]
pub struct VisualRef {
    pub identity: u64,
    pub provenance: u64,
}

/// The geometry route of a visual.
#[derive(Debug, Clone, Copy, PartialEq, Eq, Hash, Structural)]
pub enum GeometryKind {
    Rect,
    Ellipse,
    Path,
}

/// What a scope does, with the backend preflight outcome of its clip
/// geometry, or of its filter program (`Some(reason)` when it failed).
#[derive(Debug, Clone, PartialEq, Eq)]
pub enum ScopeEffect {
    /// The bit pattern of the scope's binary32 opacity.
    Opacity { opacity_bits: u32 },
    Clip { preflight_ok: bool },
    Filter { preflight_error: Option<String> },
}

/// What compilation reads of one visual node.
#[derive(Debug, Clone, PartialEq, Eq)]
pub struct NodeFacts {
    pub owner: VisualRef,
    /// Its frame bounds are finite and non-negative.
    pub bounds_valid: bool,
    /// Its transform is finite.
    pub transform_valid: bool,
    /// Its geometry's local box is finite and non-negative.
    pub rect_valid: bool,
    /// Its bounds equal its transformed geometry exactly.
    pub bounds_match: bool,
    pub geometry: GeometryKind,
    /// It has fill material (a paint or a pattern).
    pub fills: bool,
    /// It has a stroke the backend can draw.
    pub stroke: bool,
    /// Compiling the nested frame of its fill pattern failed, with that
    /// frame's refusal text.
    pub fill_pattern_error: Option<String>,
    /// Compiling the nested frame of its stroke pattern failed, with that
    /// frame's refusal text (read only when it has a stroke).
    pub stroke_pattern_error: Option<String>,
    /// The backend's gradient preflight of the paint items it lowers to
    /// failed, with the backend's reason.
    pub gradient_error: Option<String>,
}

/// One entry of the frame's checked item stream.
#[derive(Debug, Clone, PartialEq, Eq)]
pub enum FrameItemFacts {
    Node(NodeFacts),
    ScopeBegin { owner: VisualRef, effect: ScopeEffect },
    ScopeEnd,
    MaskBegin { owner: VisualRef, preflight_ok: bool },
    MaskSource,
    MaskEnd,
}

/// A resolved frame: its owner, whether its bounds are representable, and
/// its item stream in painter order.
#[derive(Debug, Clone, PartialEq, Eq)]
pub struct FrameFacts {
    pub owner: VisualRef,
    pub bounds_valid: bool,
    pub items: Vec<FrameItemFacts>,
}

/// A source-neutral frame failed validation or exceeded the admitted slice.
#[derive(Debug, Clone, PartialEq, Eq)]
pub enum BuildError {
    InvalidFrameBounds,
    InvalidVisualBounds(VisualRef),
    InvalidTransform(VisualRef),
    InvalidRectangle(VisualRef),
    VisualBoundsMismatch(VisualRef),
    DuplicateOwner(VisualRef),
    TooManyVisuals,
    Paint { owner: VisualRef, reason: String },
    Clip { owner: VisualRef, reason: String },
    Mask { owner: VisualRef, reason: String },
    Filter { owner: VisualRef, reason: String },
}

/// One private item kind.
#[derive(Debug, Clone, Copy, PartialEq, Eq, Hash, Structural)]
pub enum CompiledKind {
    BeginClipRect,
    BeginIsolatedOpacity { opacity_bits: u32 },
    BeginClipPath,
    BeginFilter,
    BeginMaskContent,
    BeginMaskSource,
    Fill(GeometryKind),
    Stroke(GeometryKind),
    EndMaskSource,
    EndMaskContent,
    EndFilter,
    EndClip,
    EndOpacity,
}

/// One private item and the owner slot it was minted for.
#[derive(Debug, Clone, Copy, PartialEq, Eq, Hash, Structural)]
pub struct CompiledItem {
    pub slot: u32,
    pub kind: CompiledKind,
}

/// A compiled frame: its items in painter order, and the owner of each slot
/// (slot zero is the frame itself).
#[derive(Debug, Clone, PartialEq, Eq)]
pub struct CompiledFrame {
    pub items: Vec<CompiledItem>,
    pub owners: Vec<VisualRef>,
}

// ── the compilation, stated ────────────────────────────────────────────────

/// A scope open while compiling, by what closes it.
#[derive(Debug, Clone, Copy, PartialEq, Eq, Hash, Structural)]
pub enum OpenKind {
    Opacity,
    Clip,
    Filter,
    MaskTarget,
    MaskSource,
}

/// Why compilation stopped.
pub ghost enum Refusal {
    InvalidVisualBounds(VisualRef),
    InvalidTransform(VisualRef),
    InvalidRectangle(VisualRef),
    VisualBoundsMismatch(VisualRef),
    DuplicateOwner(VisualRef),
    Clip(VisualRef),
    Mask(VisualRef),
    Filter(VisualRef, Seq<char>),
    Paint(VisualRef, Seq<char>),
}

/// The compiler's state after a prefix of the stream.
pub ghost struct Lowering {
    pub items: Seq<CompiledItem>,
    pub owners: Seq<VisualRef>,
    pub open: Seq<(u32, OpenKind)>,
    pub refusal: Option<Refusal>,
}

/// The items a visual node lowers to: its fill, then its stroke.
pub open spec fn node_items(node: NodeFacts, slot: u32) -> Seq<CompiledItem> {
    let fill = if node.fills {
        seq![CompiledItem { slot, kind: CompiledKind::Fill(node.geometry) }]
    } else {
        Seq::empty()
    };
    let stroke = if node.stroke {
        seq![CompiledItem { slot, kind: CompiledKind::Stroke(node.geometry) }]
    } else {
        Seq::empty()
    };
    fill + stroke
}

/// The reason a paint refusal gives for a nested pattern frame that failed.
pub open spec fn pattern_reason(nested: Seq<char>) -> Seq<char> {
    "nested pattern program failed projection: "@ + nested
}

/// The first check a visual node fails, in order: its geometry facts, then
/// its fill pattern, then the pattern of a stroke it draws.
pub open spec fn node_refusal(node: NodeFacts) -> Option<Refusal> {
    if !node.bounds_valid {
        Some(Refusal::InvalidVisualBounds(node.owner))
    } else if !node.transform_valid {
        Some(Refusal::InvalidTransform(node.owner))
    } else if !node.rect_valid {
        Some(Refusal::InvalidRectangle(node.owner))
    } else if !node.bounds_match {
        Some(Refusal::VisualBoundsMismatch(node.owner))
    } else if node.fill_pattern_error is Some {
        Some(Refusal::Paint(node.owner, pattern_reason(node.fill_pattern_error.unwrap()@)))
    } else if node.stroke && node.stroke_pattern_error is Some {
        Some(Refusal::Paint(node.owner, pattern_reason(node.stroke_pattern_error.unwrap()@)))
    } else {
        None
    }
}

/// One compilation step.
pub open spec fn lower_step(state: Lowering, item: FrameItemFacts) -> Lowering {
    if state.refusal is Some {
        state
    } else {
        let slot = state.owners.len() as u32;
        match item {
            FrameItemFacts::Node(node) => if state.owners.contains(node.owner) {
                Lowering { refusal: Some(Refusal::DuplicateOwner(node.owner)), ..state }
            } else if node_refusal(node) is Some {
                Lowering { refusal: node_refusal(node), ..state }
            } else {
                Lowering {
                    items: state.items + node_items(node, slot),
                    owners: state.owners.push(node.owner),
                    ..state
                }
            },
            FrameItemFacts::ScopeBegin { owner, effect } => if state.owners.contains(owner) {
                Lowering { refusal: Some(Refusal::DuplicateOwner(owner)), ..state }
            } else {
                match effect {
                    ScopeEffect::Opacity { opacity_bits } => Lowering {
                        items: state.items.push(CompiledItem { slot, kind: CompiledKind::BeginIsolatedOpacity { opacity_bits } }),
                        owners: state.owners.push(owner),
                        open: state.open.push((slot, OpenKind::Opacity)),
                        refusal: None,
                    },
                    ScopeEffect::Clip { preflight_ok } => if !preflight_ok {
                        Lowering { owners: state.owners.push(owner), refusal: Some(Refusal::Clip(owner)), ..state }
                    } else {
                        Lowering {
                            items: state.items.push(CompiledItem { slot, kind: CompiledKind::BeginClipPath }),
                            owners: state.owners.push(owner),
                            open: state.open.push((slot, OpenKind::Clip)),
                            refusal: None,
                        }
                    },
                    ScopeEffect::Filter { preflight_error } => if preflight_error is Some {
                        Lowering {
                            owners: state.owners.push(owner),
                            refusal: Some(Refusal::Filter(owner, preflight_error.unwrap()@)),
                            ..state
                        }
                    } else {
                        Lowering {
                            items: state.items.push(CompiledItem { slot, kind: CompiledKind::BeginFilter }),
                            owners: state.owners.push(owner),
                            open: state.open.push((slot, OpenKind::Filter)),
                            refusal: None,
                        }
                    },
                }
            },
            FrameItemFacts::MaskBegin { owner, preflight_ok } => if state.owners.contains(owner) {
                Lowering { refusal: Some(Refusal::DuplicateOwner(owner)), ..state }
            } else if !preflight_ok {
                Lowering { owners: state.owners.push(owner), refusal: Some(Refusal::Mask(owner)), ..state }
            } else {
                Lowering {
                    items: state.items.push(CompiledItem { slot, kind: CompiledKind::BeginMaskContent }),
                    owners: state.owners.push(owner),
                    open: state.open.push((slot, OpenKind::MaskTarget)),
                    refusal: None,
                }
            },
            FrameItemFacts::ScopeEnd => {
                let (open_slot, kind) = state.open.last();
                let end = match kind {
                    OpenKind::Opacity => CompiledKind::EndOpacity,
                    OpenKind::Clip => CompiledKind::EndClip,
                    _ => CompiledKind::EndFilter,
                };
                Lowering {
                    items: state.items.push(CompiledItem { slot: open_slot, kind: end }),
                    open: state.open.drop_last(),
                    ..state
                }
            },
            FrameItemFacts::MaskSource => {
                let (open_slot, _) = state.open.last();
                Lowering {
                    items: state.items.push(CompiledItem { slot: open_slot, kind: CompiledKind::BeginMaskSource }),
                    open: state.open.drop_last().push((open_slot, OpenKind::MaskSource)),
                    ..state
                }
            },
            FrameItemFacts::MaskEnd => {
                let (open_slot, _) = state.open.last();
                Lowering {
                    items: state.items.push(CompiledItem { slot: open_slot, kind: CompiledKind::EndMaskSource }).push(
                        CompiledItem { slot: open_slot, kind: CompiledKind::EndMaskContent },
                    ),
                    open: state.open.drop_last(),
                    ..state
                }
            },
        }
    }
}

/// The compiler's state after `items`, starting from the frame's clip.
pub open spec fn lowered(frame_owner: VisualRef, items: Seq<FrameItemFacts>) -> Lowering
    decreases items.len(),
{
    if items.len() == 0 {
        Lowering {
            items: seq![CompiledItem { slot: 0, kind: CompiledKind::BeginClipRect }],
            owners: seq![frame_owner],
            open: Seq::empty(),
            refusal: None,
        }
    } else {
        lower_step(lowered(frame_owner, items.drop_last()), items.last())
    }
}

// ── the checked stream ─────────────────────────────────────────────────────

/// Replay the input stream's scope structure.
pub open spec fn input_step(stack: Option<Seq<OpenKind>>, item: FrameItemFacts) -> Option<Seq<OpenKind>> {
    match stack {
        None => None,
        Some(open) => match item {
            FrameItemFacts::Node(_) => Some(open),
            FrameItemFacts::ScopeBegin { effect, .. } => Some(
                open.push(
                    match effect {
                        ScopeEffect::Opacity { .. } => OpenKind::Opacity,
                        ScopeEffect::Clip { .. } => OpenKind::Clip,
                        ScopeEffect::Filter { .. } => OpenKind::Filter,
                    },
                ),
            ),
            FrameItemFacts::ScopeEnd => if open.len() > 0 && (open.last() == OpenKind::Opacity || open.last()
                == OpenKind::Clip || open.last() == OpenKind::Filter) {
                Some(open.drop_last())
            } else {
                None
            },
            FrameItemFacts::MaskBegin { .. } => Some(open.push(OpenKind::MaskTarget)),
            FrameItemFacts::MaskSource => if open.len() > 0 && open.last() == OpenKind::MaskTarget {
                Some(open.drop_last().push(OpenKind::MaskSource))
            } else {
                None
            },
            FrameItemFacts::MaskEnd => if open.len() > 0 && open.last() == OpenKind::MaskSource {
                Some(open.drop_last())
            } else {
                None
            },
        },
    }
}

pub open spec fn input_run(items: Seq<FrameItemFacts>) -> Option<Seq<OpenKind>>
    decreases items.len(),
{
    if items.len() == 0 {
        Some(Seq::empty())
    } else {
        input_step(input_run(items.drop_last()), items.last())
    }
}

/// The stream is balanced: every scope and mask closes, in order, with a
/// mask's source between its target and its end.
pub open spec fn checked_stream(items: Seq<FrameItemFacts>) -> bool {
    input_run(items) == Some(Seq::<OpenKind>::empty())
}

/// Every prefix of a checked stream replays.
proof fn lemma_prefix_replays(items: Seq<FrameItemFacts>, n: int)
    requires
        input_run(items) is Some,
        0 <= n <= items.len(),
    ensures
        input_run(items.take(n)) is Some,
    decreases items.len() - n,
{
    if n == items.len() {
        assert(items.take(n) =~= items);
    } else {
        lemma_prefix_replays(items, n + 1);
        assert(items.take(n + 1).drop_last() =~= items.take(n));
    }
}

/// The open scopes the lowering tracks are the input's open scopes.
pub open spec fn open_kinds(open: Seq<(u32, OpenKind)>) -> Seq<OpenKind> {
    open.map_values(|entry: (u32, OpenKind)| entry.1)
}

// ── balanced output ────────────────────────────────────────────────────────

/// The scopes an output stream can open.
#[derive(Debug, Clone, Copy, PartialEq, Eq, Hash, Structural)]
pub enum OutputScope {
    Clip,
    Opacity,
    Filter,
    MaskContent,
    MaskSource,
}

pub open spec fn output_step(stack: Option<Seq<OutputScope>>, item: CompiledItem) -> Option<Seq<OutputScope>> {
    match stack {
        None => None,
        Some(open) => {
            let close = |scope: OutputScope| if open.len() > 0 && open.last() == scope {
                Some(open.drop_last())
            } else {
                None
            };
            match item.kind {
                CompiledKind::BeginClipRect | CompiledKind::BeginClipPath => Some(open.push(OutputScope::Clip)),
                CompiledKind::BeginIsolatedOpacity { .. } => Some(open.push(OutputScope::Opacity)),
                CompiledKind::BeginFilter => Some(open.push(OutputScope::Filter)),
                CompiledKind::BeginMaskContent => Some(open.push(OutputScope::MaskContent)),
                CompiledKind::BeginMaskSource => Some(open.push(OutputScope::MaskSource)),
                CompiledKind::EndClip => close(OutputScope::Clip),
                CompiledKind::EndOpacity => close(OutputScope::Opacity),
                CompiledKind::EndFilter => close(OutputScope::Filter),
                CompiledKind::EndMaskContent => close(OutputScope::MaskContent),
                CompiledKind::EndMaskSource => close(OutputScope::MaskSource),
                _ => Some(open),
            }
        },
    }
}

pub open spec fn output_run(items: Seq<CompiledItem>) -> Option<Seq<OutputScope>>
    decreases items.len(),
{
    if items.len() == 0 {
        Some(Seq::empty())
    } else {
        output_step(output_run(items.drop_last()), items.last())
    }
}

/// Every scope the output opens it closes again, innermost first.
pub open spec fn output_balanced(items: Seq<CompiledItem>) -> bool {
    output_run(items) == Some(Seq::<OutputScope>::empty())
}

/// The output scopes open while the lowering holds `open`, inside the frame
/// clip: a mask in its source phase holds its content and its source open.
pub open spec fn output_scopes(open: Seq<(u32, OpenKind)>) -> Seq<OutputScope>
    decreases open.len(),
{
    if open.len() == 0 {
        seq![OutputScope::Clip]
    } else {
        let earlier = output_scopes(open.drop_last());
        match open.last().1 {
            OpenKind::Opacity => earlier.push(OutputScope::Opacity),
            OpenKind::Clip => earlier.push(OutputScope::Clip),
            OpenKind::Filter => earlier.push(OutputScope::Filter),
            OpenKind::MaskTarget => earlier.push(OutputScope::MaskContent),
            OpenKind::MaskSource => earlier.push(OutputScope::MaskContent).push(OutputScope::MaskSource),
        }
    }
}

proof fn lemma_output_concat(a: Seq<CompiledItem>, b: Seq<CompiledItem>, stack: Seq<OutputScope>)
    requires
        output_run(a) == Some(stack),
        forall|i: int| 0 <= i < b.len() ==> ((#[trigger] b[i]).kind is Fill || b[i].kind is Stroke),
    ensures
        output_run(a + b) == Some(stack),
    decreases b.len(),
{
    if b.len() == 0 {
        assert(a + b =~= a);
    } else {
        assert((a + b).drop_last() =~= a + b.drop_last());
        assert forall|i: int| 0 <= i < b.drop_last().len() implies ((#[trigger] b.drop_last()[i]).kind is Fill
            || b.drop_last()[i].kind is Stroke) by {
            assert(b.drop_last()[i] == b[i]);
        }
        lemma_output_concat(a, b.drop_last(), stack);
        assert(b[b.len() - 1].kind is Fill || b[b.len() - 1].kind is Stroke);
    }
}

/// While no refusal stops it, the lowering mirrors the input's scopes and
/// keeps its output replaying to exactly the scopes it holds open.
#[verifier::spinoff_prover]
#[verifier::rlimit(60)]
proof fn lemma_lowering_tracks_scopes(frame_owner: VisualRef, items: Seq<FrameItemFacts>)
    requires
        input_run(items) is Some,
        lowered(frame_owner, items).refusal is None,
    ensures
        input_run(items) == Some(open_kinds(lowered(frame_owner, items).open)),
        output_run(lowered(frame_owner, items).items) == Some(output_scopes(lowered(frame_owner, items).open)),
    decreases items.len(),
{
    if items.len() == 0 {
        let first = seq![CompiledItem { slot: 0, kind: CompiledKind::BeginClipRect }];
        assert(first.drop_last() =~= Seq::<CompiledItem>::empty());
        assert(open_kinds(Seq::<(u32, OpenKind)>::empty()) =~= Seq::<OpenKind>::empty());
        assert(Seq::<OutputScope>::empty().push(OutputScope::Clip) =~= seq![OutputScope::Clip]);
        assert(output_run(first.drop_last()) == Some(Seq::<OutputScope>::empty()));
        assert(output_run(first) == Some(seq![OutputScope::Clip]));
        assert(lowered(frame_owner, items).items == first);
    } else {
        let rest = items.drop_last();
        let item = items.last();
        lemma_prefix_replays(items, items.len() - 1);
        assert(items.take(items.len() - 1) =~= rest);
        let before = lowered(frame_owner, rest);
        assert(before.refusal is None);
        lemma_lowering_tracks_scopes(frame_owner, rest);
        let after = lowered(frame_owner, items);
        let slot = before.owners.len() as u32;
        match item {
            FrameItemFacts::Node(node) => {
                if before.owners.contains(node.owner) || node_refusal(node) is Some {
                    assert(after.refusal is Some);
                } else {
                    lemma_output_concat(before.items, node_items(node, slot), output_scopes(before.open));
                    assert(after.items == before.items + node_items(node, slot));
                    assert(after.open == before.open);
                }
            },
            FrameItemFacts::ScopeBegin { owner, effect } => {
                assert(after.items.drop_last() =~= before.items);
                assert(open_kinds(after.open) =~= open_kinds(before.open).push(after.open.last().1));
                assert(after.open.drop_last() =~= before.open);
                assert(output_run(after.items) == Some(output_scopes(after.open)));
            },
            FrameItemFacts::MaskBegin { .. } => {
                assert(after.items.drop_last() =~= before.items);
                assert(open_kinds(after.open) =~= open_kinds(before.open).push(OpenKind::MaskTarget));
                assert(after.open.drop_last() =~= before.open);
                assert(output_run(after.items) == Some(output_scopes(after.open)));
            },
            FrameItemFacts::ScopeEnd => {
                assert(open_kinds(before.open).last() == before.open.last().1);
                assert(after.items.drop_last() =~= before.items);
                assert(open_kinds(after.open) =~= open_kinds(before.open).drop_last());
                assert(before.open.drop_last() == after.open);
                let s = output_scopes(after.open);
                let k = before.open.last().1;
                if k == OpenKind::Opacity {
                    assert(output_scopes(before.open) == s.push(OutputScope::Opacity));
                    assert(s.push(OutputScope::Opacity).drop_last() =~= s);
                } else if k == OpenKind::Clip {
                    assert(output_scopes(before.open) == s.push(OutputScope::Clip));
                    assert(s.push(OutputScope::Clip).drop_last() =~= s);
                } else {
                    assert(output_scopes(before.open) == s.push(OutputScope::Filter));
                    assert(s.push(OutputScope::Filter).drop_last() =~= s);
                }
                assert(output_run(after.items) == Some(output_scopes(after.open)));
            },
            FrameItemFacts::MaskSource => {
                assert(open_kinds(before.open).last() == before.open.last().1);
                assert(after.items.drop_last() =~= before.items);
                assert(open_kinds(after.open) =~= open_kinds(before.open).drop_last().push(OpenKind::MaskSource));
                assert(after.open.drop_last() =~= before.open.drop_last());
                assert(open_kinds(before.open.drop_last()) =~= open_kinds(before.open).drop_last());
                let s = output_scopes(before.open.drop_last());
                assert(output_scopes(before.open) == s.push(OutputScope::MaskContent));
                assert(output_scopes(after.open) == s.push(OutputScope::MaskContent).push(OutputScope::MaskSource));
                assert(output_run(after.items) == Some(output_scopes(after.open)));
            },
            FrameItemFacts::MaskEnd => {
                assert(open_kinds(before.open).last() == before.open.last().1);
                let once = before.items.push(CompiledItem { slot: before.open.last().0, kind: CompiledKind::EndMaskSource });
                assert(after.items.drop_last() =~= once);
                assert(once.drop_last() =~= before.items);
                assert(open_kinds(after.open) =~= open_kinds(before.open).drop_last());
                assert(before.open.drop_last() == after.open);
                let s = output_scopes(after.open);
                assert(output_scopes(before.open) == s.push(OutputScope::MaskContent).push(OutputScope::MaskSource));
                assert(s.push(OutputScope::MaskContent).push(OutputScope::MaskSource).drop_last() =~= s.push(
                    OutputScope::MaskContent,
                ));
                assert(s.push(OutputScope::MaskContent).drop_last() =~= s);
                assert(output_run(once) == Some(s.push(OutputScope::MaskContent)));
                assert(output_run(after.items) == Some(output_scopes(after.open)));
            },
        }
    }
}

/// A checked stream that compiles lowers onto a balanced private stream:
/// the frame clip encloses everything, and every scope and mask closes.
pub proof fn lemma_compiled_scopes_balance(frame_owner: VisualRef, items: Seq<FrameItemFacts>)
    requires
        checked_stream(items),
        lowered(frame_owner, items).refusal is None,
    ensures
        lowered(frame_owner, items).open.len() == 0,
        output_balanced(lowered(frame_owner, items).items.push(CompiledItem { slot: 0, kind: CompiledKind::EndClip })),
{
    lemma_lowering_tracks_scopes(frame_owner, items);
    let state = lowered(frame_owner, items);
    assert(open_kinds(state.open).len() == 0);
    let closed = state.items.push(CompiledItem { slot: 0, kind: CompiledKind::EndClip });
    assert(closed.drop_last() =~= state.items);
    assert(output_scopes(Seq::<(u32, OpenKind)>::empty()) == seq![OutputScope::Clip]);
    assert(seq![OutputScope::Clip].drop_last() =~= Seq::<OutputScope>::empty());
}

// ── compiling ──────────────────────────────────────────────────────────────

/// One owner for the frame, and one for every node, scope and mask.
pub open spec fn owner_count(items: Seq<FrameItemFacts>) -> int
    decreases items.len(),
{
    if items.len() == 0 {
        1
    } else {
        owner_count(items.drop_last()) + match items.last() {
            FrameItemFacts::Node(_) | FrameItemFacts::ScopeBegin { .. } | FrameItemFacts::MaskBegin { .. } => 1int,
            _ => 0int,
        }
    }
}

/// `error` spells `refusal`.
pub open spec fn spells(error: BuildError, refusal: Refusal) -> bool {
    match refusal {
        Refusal::InvalidVisualBounds(o) => error == BuildError::InvalidVisualBounds(o),
        Refusal::InvalidTransform(o) => error == BuildError::InvalidTransform(o),
        Refusal::InvalidRectangle(o) => error == BuildError::InvalidRectangle(o),
        Refusal::VisualBoundsMismatch(o) => error == BuildError::VisualBoundsMismatch(o),
        Refusal::DuplicateOwner(o) => error == BuildError::DuplicateOwner(o),
        Refusal::Clip(o) => error matches BuildError::Clip { owner, reason } && owner == o && reason@
            == "geometric union/intersection operation failed"@,
        Refusal::Mask(o) => error matches BuildError::Mask { owner, reason } && owner == o && reason@
            == "geometric mask-region operation failed"@,
        Refusal::Filter(o, why) => error matches BuildError::Filter { owner, reason } && owner == o && reason@ == why,
        Refusal::Paint(o, why) => error matches BuildError::Paint { owner, reason } && owner == o && reason@ == why,
    }
}

proof fn lemma_owner_count_bounds(items: Seq<FrameItemFacts>, frame_owner: VisualRef)
    ensures
        owner_count(items) >= 1,
        lowered(frame_owner, items).owners.len() <= owner_count(items),
    decreases items.len(),
{
    if items.len() > 0 {
        lemma_owner_count_bounds(items.drop_last(), frame_owner);
    }
}

fn pattern_failure(nested: &String) -> (reason: String)
    ensures
        reason@ == pattern_reason(nested@),
{
    let mut reason = String::from_str("nested pattern program failed projection: ");
    reason.append(nested.as_str());
    reason
}

/// The first node, in stream order, whose gradient preflight failed, and
/// the backend's reason.
pub open spec fn first_gradient_failure(items: Seq<FrameItemFacts>) -> Option<(VisualRef, Seq<char>)>
    decreases items.len(),
{
    if items.len() == 0 {
        None
    } else {
        match items[0] {
            FrameItemFacts::Node(node) => match node.gradient_error {
                Some(reason) => Some((node.owner, reason@)),
                None => first_gradient_failure(items.drop_first()),
            },
            _ => first_gradient_failure(items.drop_first()),
        }
    }
}

/// Run the gradient preflight over the lowered nodes, in painter order.
fn preflight_gradients(items: &Vec<FrameItemFacts>) -> (failure: Option<BuildError>)
    ensures
        match first_gradient_failure(items@) {
            None => failure is None,
            Some((o, why)) => failure matches Some(BuildError::Paint { owner, reason }) && owner == o && reason@
                == why,
        },
{
    let mut i: usize = 0;
    assert(items@.skip(0) =~= items@);
    while i < items.len()
        invariant
            i <= items@.len(),
            first_gradient_failure(items@) == first_gradient_failure(items@.skip(i as int)),
        decreases items@.len() - i,
    {
        assert(items@.skip(i as int).drop_first() =~= items@.skip(i + 1));
        assert(items@.skip(i as int)[0] == items@[i as int]);
        if let FrameItemFacts::Node(node) = &items[i] {
            if let Some(reason) = &node.gradient_error {
                return Some(BuildError::Paint { owner: node.owner, reason: reason.clone() });
            }
        }
        i += 1;
    }
    assert(items@.skip(i as int) =~= Seq::<FrameItemFacts>::empty());
    None
}

fn contains_owner(owners: &Vec<VisualRef>, owner: VisualRef) -> (found: bool)
    ensures
        found == owners@.contains(owner),
{
    let mut i: usize = 0;
    while i < owners.len()
        invariant
            i <= owners@.len(),
            forall|j: int| 0 <= j < i ==> owners@[j] != owner,
        decreases owners@.len() - i,
    {
        if owners[i] == owner {
            assert(owners@[i as int] == owner);
            return true;
        }
        i += 1;
    }
    false
}

fn count_owners(items: &Vec<FrameItemFacts>) -> (count: u64)
    ensures
        count as int == owner_count(items@) || (count == u64::MAX && owner_count(items@) >= u64::MAX),
{
    let mut count: u64 = 1;
    let mut i: usize = 0;
    while i < items.len()
        invariant
            i <= items@.len(),
            count as int == owner_count(items@.take(i as int)) || (count == u64::MAX && owner_count(
                items@.take(i as int),
            ) >= u64::MAX),
        decreases items@.len() - i,
    {
        assert(items@.take(i + 1).drop_last() =~= items@.take(i as int));
        let owns = match &items[i] {
            FrameItemFacts::Node(_) | FrameItemFacts::ScopeBegin { .. } | FrameItemFacts::MaskBegin { .. } => true,
            _ => false,
        };
        if owns && count < u64::MAX {
            count += 1;
        }
        i += 1;
    }
    assert(items@.take(items@.len() as int) =~= items@);
    count
}

/// Compile one resolved frame: its frame clip encloses the lowered stream.
/// Refuses, in order: unrepresentable frame bounds; more owners than the
/// owner-slot space; then, item by item in stream order, a repeated owner
/// (nodes, scopes and masks share one namespace), a node's invalid bounds,
/// transform, rectangle or inexact contract bounds, a nested pattern frame
/// that failed, and a failed clip, mask or filter preflight; and once the
/// whole stream has lowered, the first node whose gradient preflight failed.
pub fn compile_frame(frame: &FrameFacts) -> (product: Result<CompiledFrame, BuildError>)
    requires
        checked_stream(frame.items@),
    ensures
        !frame.bounds_valid ==> product == Err::<CompiledFrame, BuildError>(BuildError::InvalidFrameBounds),
        frame.bounds_valid && owner_count(frame.items@) > u32::MAX ==> product == Err::<CompiledFrame, BuildError>(
            BuildError::TooManyVisuals,
        ),
        frame.bounds_valid && owner_count(frame.items@) <= u32::MAX ==> match lowered(frame.owner, frame.items@).refusal {
            Some(refusal) => product matches Err(e) && spells(e, refusal),
            None => match first_gradient_failure(frame.items@) {
                Some((o, why)) => product matches Err(BuildError::Paint { owner, reason }) && owner == o && reason@
                    == why,
                None => product matches Ok(compiled) && compiled.items@ == lowered(frame.owner, frame.items@).items.push(
                    CompiledItem { slot: 0, kind: CompiledKind::EndClip },
                ) && compiled.owners@ == lowered(frame.owner, frame.items@).owners && output_balanced(compiled.items@),
            },
        },
{
    if !frame.bounds_valid {
        return Err(BuildError::InvalidFrameBounds);
    }
    let count = count_owners(&frame.items);
    if count > 0xffff_ffff {
        return Err(BuildError::TooManyVisuals);
    }
    let ghost input = frame.items@;
    let mut items: Vec<CompiledItem> = Vec::new();
    items.push(CompiledItem { slot: 0, kind: CompiledKind::BeginClipRect });
    let mut owners: Vec<VisualRef> = Vec::new();
    owners.push(frame.owner);
    let mut open: Vec<(u32, OpenKind)> = Vec::new();
    let mut i: usize = 0;
    assert(input.take(0) =~= Seq::<FrameItemFacts>::empty());
    while i < frame.items.len()
        invariant
            i <= input.len(),
            input == frame.items@,
            frame.bounds_valid,
            checked_stream(input),
            owner_count(input) <= u32::MAX,
            lowered(frame.owner, input.take(i as int)).refusal is None,
            items@ == lowered(frame.owner, input.take(i as int)).items,
            owners@ == lowered(frame.owner, input.take(i as int)).owners,
            open@ == lowered(frame.owner, input.take(i as int)).open,
        decreases input.len() - i,
    {
        let ghost prefix = input.take(i as int);
        let ghost next = input.take(i + 1);
        assert(next.drop_last() =~= prefix);
        assert(next.last() == input[i as int]);
        proof {
            lemma_owner_count_bounds(prefix, frame.owner);
            lemma_owner_count_bounds(next, frame.owner);
            lemma_owner_count_prefix(input, i + 1);
            lemma_prefix_replays(input, i as int);
            lemma_prefix_replays(input, i + 1);
            lemma_lowering_tracks_scopes(frame.owner, prefix);
            if lowered(frame.owner, next).refusal is Some {
                lemma_refusal_sticks(frame.owner, input, i + 1);
            }
        }
        let slot = owners.len() as u32;
        match &frame.items[i] {
            FrameItemFacts::Node(node) => {
                if contains_owner(&owners, node.owner) {
                    return Err(BuildError::DuplicateOwner(node.owner));
                }
                if !node.bounds_valid {
                    return Err(BuildError::InvalidVisualBounds(node.owner));
                }
                if !node.transform_valid {
                    return Err(BuildError::InvalidTransform(node.owner));
                }
                if !node.rect_valid {
                    return Err(BuildError::InvalidRectangle(node.owner));
                }
                if !node.bounds_match {
                    return Err(BuildError::VisualBoundsMismatch(node.owner));
                }
                if let Some(nested) = &node.fill_pattern_error {
                    return Err(BuildError::Paint { owner: node.owner, reason: pattern_failure(nested) });
                }
                if node.stroke {
                    if let Some(nested) = &node.stroke_pattern_error {
                        return Err(BuildError::Paint { owner: node.owner, reason: pattern_failure(nested) });
                    }
                }
                owners.push(node.owner);
                if node.fills {
                    items.push(CompiledItem { slot, kind: CompiledKind::Fill(node.geometry) });
                }
                if node.stroke {
                    items.push(CompiledItem { slot, kind: CompiledKind::Stroke(node.geometry) });
                }
            },
            FrameItemFacts::ScopeBegin { owner, effect } => {
                if contains_owner(&owners, *owner) {
                    return Err(BuildError::DuplicateOwner(*owner));
                }
                owners.push(*owner);
                match effect {
                    ScopeEffect::Opacity { opacity_bits } => {
                        items.push(CompiledItem { slot, kind: CompiledKind::BeginIsolatedOpacity { opacity_bits: *opacity_bits } });
                        open.push((slot, OpenKind::Opacity));
                    },
                    ScopeEffect::Clip { preflight_ok } => {
                        if !*preflight_ok {
                            return Err(
                                BuildError::Clip {
                                    owner: *owner,
                                    reason: "geometric union/intersection operation failed".to_string(),
                                },
                            );
                        }
                        items.push(CompiledItem { slot, kind: CompiledKind::BeginClipPath });
                        open.push((slot, OpenKind::Clip));
                    },
                    ScopeEffect::Filter { preflight_error } => {
                        if let Some(reason) = preflight_error {
                            return Err(BuildError::Filter { owner: *owner, reason: reason.clone() });
                        }
                        items.push(CompiledItem { slot, kind: CompiledKind::BeginFilter });
                        open.push((slot, OpenKind::Filter));
                    },
                }
            },
            FrameItemFacts::MaskBegin { owner, preflight_ok } => {
                if contains_owner(&owners, *owner) {
                    return Err(BuildError::DuplicateOwner(*owner));
                }
                owners.push(*owner);
                if !*preflight_ok {
                    return Err(
                        BuildError::Mask { owner: *owner, reason: "geometric mask-region operation failed".to_string() },
                    );
                }
                items.push(CompiledItem { slot, kind: CompiledKind::BeginMaskContent });
                open.push((slot, OpenKind::MaskTarget));
            },
            FrameItemFacts::ScopeEnd => {
                assert(open_kinds(open@).last() == open@.last().1);
                let (open_slot, kind) = open.pop().unwrap();
                let end = match kind {
                    OpenKind::Opacity => CompiledKind::EndOpacity,
                    OpenKind::Clip => CompiledKind::EndClip,
                    _ => CompiledKind::EndFilter,
                };
                items.push(CompiledItem { slot: open_slot, kind: end });
            },
            FrameItemFacts::MaskSource => {
                let (open_slot, _) = open.pop().unwrap();
                items.push(CompiledItem { slot: open_slot, kind: CompiledKind::BeginMaskSource });
                open.push((open_slot, OpenKind::MaskSource));
            },
            FrameItemFacts::MaskEnd => {
                let (open_slot, _) = open.pop().unwrap();
                items.push(CompiledItem { slot: open_slot, kind: CompiledKind::EndMaskSource });
                items.push(CompiledItem { slot: open_slot, kind: CompiledKind::EndMaskContent });
            },
        }
        assert(items@ =~= lowered(frame.owner, next).items);
        i += 1;
    }
    assert(input.take(input.len() as int) =~= input);
    items.push(CompiledItem { slot: 0, kind: CompiledKind::EndClip });
    proof {
        lemma_compiled_scopes_balance(frame.owner, input);
    }
    if let Some(failure) = preflight_gradients(&frame.items) {
        return Err(failure);
    }
    Ok(CompiledFrame { items, owners })
}

/// Once compilation refuses, the refusal stands for the whole stream.
proof fn lemma_refusal_sticks(frame_owner: VisualRef, items: Seq<FrameItemFacts>, k: int)
    requires
        0 <= k <= items.len(),
        lowered(frame_owner, items.take(k)).refusal is Some,
    ensures
        lowered(frame_owner, items).refusal == lowered(frame_owner, items.take(k)).refusal,
    decreases items.len() - k,
{
    if k == items.len() {
        assert(items.take(k) =~= items);
    } else {
        assert(items.take(k + 1).drop_last() =~= items.take(k));
        assert(lowered(frame_owner, items.take(k + 1)).refusal == lowered(frame_owner, items.take(k)).refusal);
        lemma_refusal_sticks(frame_owner, items, k + 1);
    }
}

proof fn lemma_owner_count_prefix(items: Seq<FrameItemFacts>, n: int)
    requires
        0 <= n <= items.len(),
    ensures
        owner_count(items.take(n)) <= owner_count(items),
    decreases items.len() - n,
{
    if n < items.len() {
        lemma_owner_count_prefix(items, n + 1);
        assert(items.take(n + 1).drop_last() =~= items.take(n));
        assert(owner_count(items.take(n + 1)) >= owner_count(items.take(n)));
    } else {
        assert(items.take(n) =~= items);
    }
}

} // verus!
