//! The list painter's traversal: which items each node of a resolved tier
//! contributes to the ordered primitive stream, and in which order.
//!
//! A hidden subtree prunes; the root and derived kinds (groups and lenses)
//! emit no ink, but their children are still visited. A node's opacity scope
//! encloses its fill, its descendants and its strokes. A frame's clip scope
//! encloses its descendants only. Every scope a node opens it closes again,
//! so the stream's scopes are balanced and properly nested.

use vstd::prelude::*;
use crate::drawlist::{materialize_text_paints, visible_of, visible_run, TextContent, TextRun};
use crate::ident::NodeId;
use crate::paint::{visible_paints, Paints};

verus! {

/// The payload classes the painter distinguishes.
#[derive(Debug, Clone, PartialEq, Eq)]
pub enum PayloadKind {
    Frame { clips_content: bool },
    Rect,
    Ellipse,
    Line,
    Path,
    Text(TextContent),
    Group,
    Lens,
}

/// What the painter reads of one stroke: whether its geometry can render
/// for the node's payload, and its paint stack.
#[derive(Debug, Clone, PartialEq, Eq)]
pub struct StrokeFacts {
    pub renderable: bool,
    pub paints: Paints,
}

/// What the painter reads of one resolved node.
#[derive(Debug, Clone, PartialEq, Eq)]
pub struct EmitNode {
    /// The node resolved to a world transform; a hidden node prunes its
    /// subtree.
    pub visible: bool,
    pub payload: PayloadKind,
    /// The node's effective opacity differs from one.
    pub opacity_scope: bool,
    pub fills: Paints,
    /// A path node resolved its path geometry.
    pub resolved_path: bool,
    pub strokes: Vec<StrokeFacts>,
    pub children: Vec<NodeId>,
}

/// The kind of one emitted primitive; strokes name the node's stroke they
/// paint.
#[derive(Debug, Clone, Copy, PartialEq, Eq, Structural)]
pub enum EmitKind {
    BeginOpacity,
    RectFill,
    OvalFill,
    PathFill,
    TextFill,
    BeginClipRect,
    EndClip,
    RectStroke { stroke: usize },
    OvalStroke { stroke: usize },
    LineStroke { stroke: usize },
    PathStroke { stroke: usize },
    TextStroke { stroke: usize },
    EndOpacity,
}

/// One emitted primitive and the node it was emitted for.
#[derive(Debug, Clone, Copy, PartialEq, Eq, Structural)]
pub struct EmitItem {
    pub node: NodeId,
    pub kind: EmitKind,
}

// ── what one node contributes ──────────────────────────────────────────────

/// Groups and lenses derive their box and carry no ink.
pub open spec fn is_derived(payload: PayloadKind) -> bool {
    payload is Group || payload is Lens
}

/// Some glyph-owning paint stack of the text is visible.
pub open spec fn text_ink(content: TextContent, fills: Paints) -> bool {
    match content.runs {
        None => visible_of(fills@).len() != 0,
        Some(runs) => exists|i: int|
            0 <= i < runs@.len() && match visible_run(#[trigger] runs@[i]) {
                Some(own) => own.len() != 0,
                None => visible_of(fills@).len() != 0,
            },
    }
}

/// The fill a node paints, if any.
pub open spec fn fill_kind(node: EmitNode) -> Option<EmitKind> {
    let visible = visible_of(node.fills@).len() != 0;
    match node.payload {
        PayloadKind::Frame { .. } | PayloadKind::Rect => if visible {
            Some(EmitKind::RectFill)
        } else {
            None
        },
        PayloadKind::Ellipse => if visible {
            Some(EmitKind::OvalFill)
        } else {
            None
        },
        PayloadKind::Path => if visible && node.resolved_path {
            Some(EmitKind::PathFill)
        } else {
            None
        },
        PayloadKind::Text(content) => if text_ink(content, node.fills) {
            Some(EmitKind::TextFill)
        } else {
            None
        },
        _ => None,
    }
}

/// The primitive that paints stroke `stroke` of a payload.
pub open spec fn stroke_kind(payload: PayloadKind, stroke: usize) -> EmitKind {
    match payload {
        PayloadKind::Ellipse => EmitKind::OvalStroke { stroke },
        PayloadKind::Line => EmitKind::LineStroke { stroke },
        PayloadKind::Path => EmitKind::PathStroke { stroke },
        PayloadKind::Text(_) => EmitKind::TextStroke { stroke },
        _ => EmitKind::RectStroke { stroke },
    }
}

/// Stroke `i` renders for the payload, has a visible paint, and (for a path)
/// has resolved geometry to follow.
pub open spec fn stroke_shown(node: EmitNode, i: int) -> bool {
    &&& node.strokes@[i].renderable
    &&& visible_of(node.strokes@[i].paints@).len() != 0
    &&& !(node.payload is Path && !node.resolved_path)
}

/// The strokes among the node's first `count` that are painted, in order.
pub open spec fn stroke_items(node: EmitNode, id: NodeId, count: int) -> Seq<EmitItem>
    decreases count,
{
    if count <= 0 {
        Seq::empty()
    } else {
        let earlier = stroke_items(node, id, count - 1);
        if stroke_shown(node, count - 1) {
            earlier.push(EmitItem { node: id, kind: stroke_kind(node.payload, (count - 1) as usize) })
        } else {
            earlier
        }
    }
}

/// The node paints its own ink: it is neither the root backdrop nor a
/// derived kind.
pub open spec fn inked(node: EmitNode, id: NodeId, root: NodeId) -> bool {
    id != root && !is_derived(node.payload)
}

pub open spec fn own_fill(node: EmitNode, id: NodeId, root: NodeId) -> Seq<EmitItem> {
    if inked(node, id, root) && fill_kind(node) is Some {
        seq![EmitItem { node: id, kind: fill_kind(node).unwrap() }]
    } else {
        Seq::empty()
    }
}

pub open spec fn own_strokes(node: EmitNode, id: NodeId, root: NodeId) -> Seq<EmitItem> {
    if inked(node, id, root) {
        stroke_items(node, id, node.strokes@.len() as int)
    } else {
        Seq::empty()
    }
}

/// A frame that clips its content.
pub open spec fn clips(node: EmitNode) -> bool {
    node.payload matches PayloadKind::Frame { clips_content } && clips_content
}

/// `body` enclosed by a begin and an end item when `scoped`.
pub open spec fn enclose(scoped: bool, id: NodeId, begin: EmitKind, body: Seq<EmitItem>, end: EmitKind) -> Seq<EmitItem> {
    if scoped {
        seq![EmitItem { node: id, kind: begin }] + body + seq![EmitItem { node: id, kind: end }]
    } else {
        body
    }
}

// ── traversal ──────────────────────────────────────────────────────────────

/// Every child is a node of the tier, and `height` strictly descends from
/// each node to its children: the child relation has no cycle.
pub open spec fn heights_descend(nodes: Seq<EmitNode>, height: spec_fn(int) -> nat) -> bool {
    forall|parent: int, j: int|
        0 <= parent < nodes.len() && 0 <= j < nodes[parent].children@.len() ==> {
            let child = #[trigger] nodes[parent].children@[j];
            &&& child < nodes.len()
            &&& height(child as int) < height(parent)
        }
}

/// The tier's nodes form an acyclic child relation.
pub open spec fn acyclic(nodes: Seq<EmitNode>) -> bool {
    exists|height: spec_fn(int) -> nat| heights_descend(nodes, height)
}

/// A descending height witnessing that the tier is acyclic.
pub open spec fn descent(nodes: Seq<EmitNode>) -> spec_fn(int) -> nat {
    choose|height: spec_fn(int) -> nat| heights_descend(nodes, height)
}

/// The items `id` and its visible descendants emit, in painter order.
pub open spec fn emitted(nodes: Seq<EmitNode>, height: spec_fn(int) -> nat, root: NodeId, id: NodeId) -> Seq<
    EmitItem,
>
    decreases height(id as int), nodes[id as int].children@.len() + 1,
{
    if id >= nodes.len() || !nodes[id as int].visible {
        Seq::empty()
    } else {
        let node = nodes[id as int];
        let descendants = children_emitted(nodes, height, root, id, node.children@.len() as int);
        let inner = own_fill(node, id, root) + enclose(
            clips(node),
            id,
            EmitKind::BeginClipRect,
            descendants,
            EmitKind::EndClip,
        ) + own_strokes(node, id, root);
        enclose(node.opacity_scope, id, EmitKind::BeginOpacity, inner, EmitKind::EndOpacity)
    }
}

/// The items the first `count` children of `parent` emit, in child order.
pub open spec fn children_emitted(
    nodes: Seq<EmitNode>,
    height: spec_fn(int) -> nat,
    root: NodeId,
    parent: NodeId,
    count: int,
) -> Seq<EmitItem>
    decreases height(parent as int), count,
{
    if count <= 0 || parent >= nodes.len() || count > nodes[parent as int].children@.len() {
        Seq::empty()
    } else {
        let earlier = children_emitted(nodes, height, root, parent, count - 1);
        let child = nodes[parent as int].children@[count - 1];
        if height(child as int) < height(parent as int) {
            earlier + emitted(nodes, height, root, child)
        } else {
            earlier
        }
    }
}

// ── balanced scopes ────────────────────────────────────────────────────────

/// The scopes a stream can open.
#[derive(Debug, Clone, Copy, PartialEq, Eq, Structural)]
pub enum ScopeKind {
    Opacity,
    Clip,
}

/// Replay one item against a stack of open scopes; an end that does not
/// close the innermost open scope of its kind fails.
pub open spec fn scope_step(stack: Option<Seq<ScopeKind>>, item: EmitItem) -> Option<Seq<ScopeKind>> {
    match stack {
        None => None,
        Some(open) => match item.kind {
            EmitKind::BeginOpacity => Some(open.push(ScopeKind::Opacity)),
            EmitKind::BeginClipRect => Some(open.push(ScopeKind::Clip)),
            EmitKind::EndOpacity => if open.len() > 0 && open.last() == ScopeKind::Opacity {
                Some(open.drop_last())
            } else {
                None
            },
            EmitKind::EndClip => if open.len() > 0 && open.last() == ScopeKind::Clip {
                Some(open.drop_last())
            } else {
                None
            },
            _ => Some(open),
        },
    }
}

/// Replay a stream against a stack of open scopes.
pub open spec fn scope_run(stack: Option<Seq<ScopeKind>>, items: Seq<EmitItem>) -> Option<Seq<ScopeKind>>
    decreases items.len(),
{
    if items.len() == 0 {
        stack
    } else {
        scope_step(scope_run(stack, items.drop_last()), items.last())
    }
}

/// Every scope the stream opens it closes again, innermost first, and it
/// closes nothing it did not open.
pub open spec fn balanced(items: Seq<EmitItem>) -> bool {
    forall|open: Seq<ScopeKind>| #[trigger] scope_run(Some(open), items) == Some(open)
}

/// Neither opens nor closes a scope.
pub open spec fn is_ink(kind: EmitKind) -> bool {
    !(kind is BeginOpacity || kind is EndOpacity || kind is BeginClipRect || kind is EndClip)
}

proof fn lemma_run_concat(stack: Option<Seq<ScopeKind>>, a: Seq<EmitItem>, b: Seq<EmitItem>)
    ensures
        scope_run(stack, a + b) == scope_run(scope_run(stack, a), b),
    decreases b.len(),
{
    if b.len() == 0 {
        assert(a + b =~= a);
    } else {
        assert((a + b).drop_last() =~= a + b.drop_last());
        lemma_run_concat(stack, a, b.drop_last());
    }
}

proof fn lemma_balanced_concat(a: Seq<EmitItem>, b: Seq<EmitItem>)
    requires
        balanced(a),
        balanced(b),
    ensures
        balanced(a + b),
{
    assert forall|open: Seq<ScopeKind>| #[trigger] scope_run(Some(open), a + b) == Some(open) by {
        lemma_run_concat(Some(open), a, b);
        assert(scope_run(Some(open), a) == Some(open));
    }
}

proof fn lemma_ink_balanced(items: Seq<EmitItem>)
    requires
        forall|i: int| 0 <= i < items.len() ==> is_ink((#[trigger] items[i]).kind),
    ensures
        balanced(items),
    decreases items.len(),
{
    if items.len() > 0 {
        let rest = items.drop_last();
        assert forall|i: int| 0 <= i < rest.len() implies is_ink((#[trigger] rest[i]).kind) by {
            assert(rest[i] == items[i]);
        }
        lemma_ink_balanced(rest);
        assert(is_ink(items[items.len() - 1].kind));
        assert forall|open: Seq<ScopeKind>| #[trigger] scope_run(Some(open), items) == Some(open) by {
            assert(scope_run(Some(open), rest) == Some(open));
        }
    }
}

proof fn lemma_enclose_balanced(scoped: bool, id: NodeId, begin: EmitKind, body: Seq<EmitItem>, end: EmitKind)
    requires
        balanced(body),
        (begin == EmitKind::BeginOpacity && end == EmitKind::EndOpacity) || (begin == EmitKind::BeginClipRect
            && end == EmitKind::EndClip),
    ensures
        balanced(enclose(scoped, id, begin, body, end)),
{
    if scoped {
        let opening = seq![EmitItem { node: id, kind: begin }];
        let closing = seq![EmitItem { node: id, kind: end }];
        assert forall|open: Seq<ScopeKind>| #[trigger] scope_run(Some(open), opening + body + closing) == Some(open) by {
            lemma_run_concat(Some(open), opening + body, closing);
            lemma_run_concat(Some(open), opening, body);
            assert(opening.drop_last() =~= Seq::<EmitItem>::empty());
            assert(closing.drop_last() =~= Seq::<EmitItem>::empty());
            let kind = if begin == EmitKind::BeginOpacity {
                ScopeKind::Opacity
            } else {
                ScopeKind::Clip
            };
            assert(scope_run(Some(open), opening.drop_last()) == Some(open));
            assert(opening.last() == EmitItem { node: id, kind: begin });
            assert(scope_run(Some(open), opening) == Some(open.push(kind)));
            assert(scope_run(Some(open.push(kind)), body) == Some(open.push(kind)));
            assert(scope_run(Some(open.push(kind)), closing.drop_last()) == Some(open.push(kind)));
            assert(closing.last() == EmitItem { node: id, kind: end });
            assert(open.push(kind).drop_last() =~= open);
            assert(scope_run(Some(open.push(kind)), closing) == Some(open));
        }
    }
}

proof fn lemma_stroke_items_ink(node: EmitNode, id: NodeId, count: int)
    ensures
        forall|i: int| 0 <= i < stroke_items(node, id, count).len() ==> is_ink(
            (#[trigger] stroke_items(node, id, count)[i]).kind,
        ),
    decreases count,
{
    if count > 0 {
        lemma_stroke_items_ink(node, id, count - 1);
        let earlier = stroke_items(node, id, count - 1);
        assert forall|i: int| 0 <= i < stroke_items(node, id, count).len() implies is_ink(
            (#[trigger] stroke_items(node, id, count)[i]).kind,
        ) by {
            if i < earlier.len() {
                assert(stroke_items(node, id, count)[i] == earlier[i]);
            }
        }
    }
}

proof fn lemma_emitted_balanced(nodes: Seq<EmitNode>, height: spec_fn(int) -> nat, root: NodeId, id: NodeId)
    ensures
        balanced(emitted(nodes, height, root, id)),
    decreases height(id as int), nodes[id as int].children@.len() + 1,
{
    if id >= nodes.len() || !nodes[id as int].visible {
        assert forall|open: Seq<ScopeKind>| #[trigger] scope_run(Some(open), Seq::<EmitItem>::empty()) == Some(open) by {}
    } else {
        let node = nodes[id as int];
        let count = node.children@.len() as int;
        lemma_children_balanced(nodes, height, root, id, count);
        let descendants = children_emitted(nodes, height, root, id, count);
        lemma_enclose_balanced(clips(node), id, EmitKind::BeginClipRect, descendants, EmitKind::EndClip);
        let fill = own_fill(node, id, root);
        assert forall|i: int| 0 <= i < fill.len() implies is_ink((#[trigger] fill[i]).kind) by {}
        lemma_ink_balanced(fill);
        lemma_stroke_items_ink(node, id, node.strokes@.len() as int);
        lemma_ink_balanced(own_strokes(node, id, root));
        let clipped = enclose(clips(node), id, EmitKind::BeginClipRect, descendants, EmitKind::EndClip);
        lemma_balanced_concat(fill, clipped);
        lemma_balanced_concat(fill + clipped, own_strokes(node, id, root));
        lemma_enclose_balanced(
            node.opacity_scope,
            id,
            EmitKind::BeginOpacity,
            fill + clipped + own_strokes(node, id, root),
            EmitKind::EndOpacity,
        );
    }
}

proof fn lemma_children_balanced(
    nodes: Seq<EmitNode>,
    height: spec_fn(int) -> nat,
    root: NodeId,
    parent: NodeId,
    count: int,
)
    ensures
        balanced(children_emitted(nodes, height, root, parent, count)),
    decreases height(parent as int), count,
{
    if count <= 0 || parent >= nodes.len() || count > nodes[parent as int].children@.len() {
        assert forall|open: Seq<ScopeKind>| #[trigger] scope_run(Some(open), Seq::<EmitItem>::empty()) == Some(open) by {}
    } else {
        lemma_children_balanced(nodes, height, root, parent, count - 1);
        let child = nodes[parent as int].children@[count - 1];
        if height(child as int) < height(parent as int) {
            lemma_emitted_balanced(nodes, height, root, child);
            lemma_balanced_concat(
                children_emitted(nodes, height, root, parent, count - 1),
                emitted(nodes, height, root, child),
            );
        }
    }
}

/// Every scope the painter opens it closes again, innermost first: the
/// stream any node's subtree emits is balanced.
pub proof fn lemma_emitted_scopes_balance(nodes: Seq<EmitNode>, root: NodeId, id: NodeId)
    ensures
        balanced(emitted(nodes, descent(nodes), root, id)),
{
    lemma_emitted_balanced(nodes, descent(nodes), root, id);
}

// ── executable traversal ───────────────────────────────────────────────────

fn text_has_ink(content: &TextContent, fills: &Paints) -> (ink: bool)
    ensures
        ink == text_ink(*content, *fills),
{
    let paints = materialize_text_paints(content, fills);
    let ink = paints.has_visible_ink();
    proof {
        if content.runs is Some {
            let runs = content.runs.unwrap();
            let owned = paints.runs.unwrap();
            if ink {
                let i = choose|i: int| 0 <= i < owned@.len() && paints.run_paints(i)@.len() != 0;
                assert(match visible_run(runs@[i]) {
                    Some(own) => own.len() != 0,
                    None => visible_of(fills@).len() != 0,
                });
            } else {
                assert forall|i: int| 0 <= i < runs@.len() implies !match visible_run(#[trigger] runs@[i]) {
                    Some(own) => own.len() != 0,
                    None => visible_of(fills@).len() != 0,
                } by {
                    assert(paints.run_paints(i)@.len() == 0);
                    assert(match (owned@[i], visible_run(runs@[i])) {
                        (Some(p), Some(v)) => p@ == v,
                        (None, None) => true,
                        _ => false,
                    });
                }
            }
        }
    }
    ink
}

fn fill_of(node: &EmitNode) -> (kind: Option<EmitKind>)
    ensures
        kind == fill_kind(*node),
{
    let visible = !visible_paints(&node.fills).is_empty();
    match &node.payload {
        PayloadKind::Frame { .. } | PayloadKind::Rect => if visible {
            Some(EmitKind::RectFill)
        } else {
            None
        },
        PayloadKind::Ellipse => if visible {
            Some(EmitKind::OvalFill)
        } else {
            None
        },
        PayloadKind::Path => if visible && node.resolved_path {
            Some(EmitKind::PathFill)
        } else {
            None
        },
        PayloadKind::Text(content) => if text_has_ink(content, &node.fills) {
            Some(EmitKind::TextFill)
        } else {
            None
        },
        _ => None,
    }
}

fn stroke_of(payload: &PayloadKind, stroke: usize) -> (kind: EmitKind)
    ensures
        kind == stroke_kind(*payload, stroke),
{
    match payload {
        PayloadKind::Ellipse => EmitKind::OvalStroke { stroke },
        PayloadKind::Line => EmitKind::LineStroke { stroke },
        PayloadKind::Path => EmitKind::PathStroke { stroke },
        PayloadKind::Text(_) => EmitKind::TextStroke { stroke },
        _ => EmitKind::RectStroke { stroke },
    }
}

/// The stroke as painted: `None` when its geometry cannot render for the
/// payload or none of its paints is visible; otherwise the stroke carrying
/// only its visible paints.
pub fn visible_stroke(stroke: &StrokeFacts) -> (shown: Option<StrokeFacts>)
    ensures
        shown is None <==> (!stroke.renderable || visible_of(stroke.paints@).len() == 0),
        shown matches Some(s) ==> s.renderable && s.paints@ == visible_of(stroke.paints@),
{
    if !stroke.renderable {
        return None;
    }
    let paints = visible_paints(&stroke.paints);
    if paints.is_empty() {
        return None;
    }
    Some(StrokeFacts { renderable: true, paints })
}

fn push_strokes(node: &EmitNode, id: NodeId, items: &mut Vec<EmitItem>)
    ensures
        final(items)@ == old(items)@ + stroke_items(*node, id, node.strokes@.len() as int),
{
    let ghost start = old(items)@;
    let is_path = match &node.payload {
        PayloadKind::Path => true,
        _ => false,
    };
    let mut i: usize = 0;
    while i < node.strokes.len()
        invariant
            i <= node.strokes@.len(),
            is_path == (node.payload is Path),
            items@ == start + stroke_items(*node, id, i as int),
        decreases node.strokes@.len() - i,
    {
        let shown = visible_stroke(&node.strokes[i]).is_some() && !(is_path && !node.resolved_path);
        if shown {
            items.push(EmitItem { node: id, kind: stroke_of(&node.payload, i) });
        }
        i += 1;
        assert(items@ =~= start + stroke_items(*node, id, i as int));
    }
}

fn push_fill(node: &EmitNode, id: NodeId, root: NodeId, items: &mut Vec<EmitItem>)
    ensures
        final(items)@ == old(items)@ + own_fill(*node, id, root),
{
    let inked = id != root && !matches!(node.payload, PayloadKind::Group | PayloadKind::Lens);
    if inked {
        if let Some(kind) = fill_of(node) {
            items.push(EmitItem { node: id, kind });
        }
    }
    assert(final(items)@ =~= old(items)@ + own_fill(*node, id, root));
}

fn push_own_strokes(node: &EmitNode, id: NodeId, root: NodeId, items: &mut Vec<EmitItem>)
    ensures
        final(items)@ == old(items)@ + own_strokes(*node, id, root),
{
    let inked = id != root && !matches!(node.payload, PayloadKind::Group | PayloadKind::Lens);
    if inked {
        push_strokes(node, id, items);
    }
    assert(final(items)@ =~= old(items)@ + own_strokes(*node, id, root));
}

fn emit_children(
    nodes: &Vec<EmitNode>,
    Ghost(height): Ghost<spec_fn(int) -> nat>,
    root: NodeId,
    parent: NodeId,
    items: &mut Vec<EmitItem>,
)
    requires
        heights_descend(nodes@, height),
        (parent as int) < nodes@.len(),
    ensures
        final(items)@ == old(items)@ + children_emitted(
            nodes@,
            height,
            root,
            parent,
            nodes@[parent as int].children@.len() as int,
        ),
    decreases height(parent as int), 0nat,
{
    let ghost start = old(items)@;
    let children = &nodes[parent as usize].children;
    let mut j: usize = 0;
    while j < children.len()
        invariant
            heights_descend(nodes@, height),
            (parent as int) < nodes@.len(),
            *children == nodes@[parent as int].children,
            j <= children@.len(),
            items@ == start + children_emitted(nodes@, height, root, parent, j as int),
        decreases children@.len() - j,
    {
        let child = children[j];
        assert(height(child as int) < height(parent as int));
        emit_node(nodes, Ghost(height), root, child, items);
        j += 1;
        assert(items@ =~= start + children_emitted(nodes@, height, root, parent, j as int));
    }
}

fn emit_node(
    nodes: &Vec<EmitNode>,
    Ghost(height): Ghost<spec_fn(int) -> nat>,
    root: NodeId,
    id: NodeId,
    items: &mut Vec<EmitItem>,
)
    requires
        heights_descend(nodes@, height),
    ensures
        final(items)@ == old(items)@ + emitted(nodes@, height, root, id),
    decreases height(id as int), 1nat,
{
    let ghost start = old(items)@;
    let index = id as usize;
    if index >= nodes.len() || !nodes[index].visible {
        assert(items@ =~= start + emitted(nodes@, height, root, id));
        return;
    }
    let node = &nodes[index];
    let clip = match &node.payload {
        PayloadKind::Frame { clips_content } => *clips_content,
        _ => false,
    };
    if node.opacity_scope {
        items.push(EmitItem { node: id, kind: EmitKind::BeginOpacity });
    }
    let ghost opened = items@;
    push_fill(node, id, root, items);
    let ghost filled = items@;
    if clip {
        items.push(EmitItem { node: id, kind: EmitKind::BeginClipRect });
    }
    let ghost clip_opened = items@;
    emit_children(nodes, Ghost(height), root, id, items);
    let ghost descended = items@;
    if clip {
        items.push(EmitItem { node: id, kind: EmitKind::EndClip });
    }
    let ghost clip_closed = items@;
    push_own_strokes(node, id, root, items);
    let ghost stroked = items@;
    if node.opacity_scope {
        items.push(EmitItem { node: id, kind: EmitKind::EndOpacity });
    }
    proof {
        let n = nodes@[id as int];
        let descendants = children_emitted(nodes@, height, root, id, n.children@.len() as int);
        let clipped = enclose(clips(n), id, EmitKind::BeginClipRect, descendants, EmitKind::EndClip);
        assert(clip_closed =~= filled + clipped);
        let inner = own_fill(n, id, root) + clipped + own_strokes(n, id, root);
        assert(stroked =~= opened + inner);
        assert(items@ =~= start + emitted(nodes@, height, root, id));
    }
}

/// Project a resolved tier into its ordered primitive stream, starting at
/// `root`.
pub fn build_items(nodes: &Vec<EmitNode>, root: NodeId) -> (items: Vec<EmitItem>)
    requires
        acyclic(nodes@),
    ensures
        items@ == emitted(nodes@, descent(nodes@), root, root),
        balanced(items@),
{
    let ghost height = descent(nodes@);
    let mut items: Vec<EmitItem> = Vec::new();
    emit_node(nodes, Ghost(height), root, root, &mut items);
    assert(items@ =~= emitted(nodes@, height, root, root));
    proof {
        lemma_emitted_scopes_balance(nodes@, root, root);
    }
    items
}


// ── what an ellipse paints ─────────────────────────────────────────────────

proof fn lemma_ellipse_stroke_items(node: EmitNode, id: NodeId, count: int)
    requires
        node.payload == PayloadKind::Ellipse,
        0 <= count <= node.strokes@.len(),
    ensures
        forall|k: int|
            0 <= k < stroke_items(node, id, count).len() ==> (#[trigger] stroke_items(node, id, count)[k]).node == id
                && (stroke_items(node, id, count)[k].kind matches EmitKind::OvalStroke { stroke } && stroke < count
                && stroke_shown(node, stroke as int)),
        forall|s: int|
            0 <= s < count && #[trigger] stroke_shown(node, s) ==> stroke_items(node, id, count).contains(
                EmitItem { node: id, kind: EmitKind::OvalStroke { stroke: s as usize } },
            ),
    decreases count,
{
    if count > 0 {
        lemma_ellipse_stroke_items(node, id, count - 1);
        let earlier = stroke_items(node, id, count - 1);
        let items = stroke_items(node, id, count);
        let last = EmitItem { node: id, kind: EmitKind::OvalStroke { stroke: (count - 1) as usize } };
        if stroke_shown(node, count - 1) {
            assert(items == earlier.push(last));
            assert forall|k: int| 0 <= k < items.len() implies (#[trigger] items[k]).node == id && (
            items[k].kind matches EmitKind::OvalStroke { stroke } && stroke < count && stroke_shown(
                node,
                stroke as int,
            )) by {
                if k < earlier.len() {
                    assert(items[k] == earlier[k]);
                    assert(earlier[k].node == id);
                } else {
                    assert(items[k] == last);
                    assert(node.strokes@.len() == node.strokes.len());
                    assert(((count - 1) as usize) as int == count - 1);
                    assert(stroke_shown(node, count - 1));
                }
            }
            assert forall|s: int| 0 <= s < count && #[trigger] stroke_shown(node, s) implies items.contains(
                EmitItem { node: id, kind: EmitKind::OvalStroke { stroke: s as usize } },
            ) by {
                if s < count - 1 {
                    let item = EmitItem { node: id, kind: EmitKind::OvalStroke { stroke: s as usize } };
                    let k = choose|k: int| 0 <= k < earlier.len() && earlier[k] == item;
                    assert(items[k] == item);
                } else {
                    assert(items[earlier.len() as int] == last);
                }
            }
        } else {
            assert(items == earlier);
        }
    }
}

/// An inked ellipse paints as an oval: its fill, when it has visible fill
/// paint, is an oval fill, and every stroke it shows is painted as an oval
/// outline named by that stroke's index — never as a rectangle — while no
/// other stroke item is emitted for it.
pub proof fn lemma_ellipse_paints_as_oval(node: EmitNode, id: NodeId, root: NodeId)
    requires
        node.payload == PayloadKind::Ellipse,
        inked(node, id, root),
    ensures
        visible_of(node.fills@).len() != 0 ==> own_fill(node, id, root) == seq![
            EmitItem { node: id, kind: EmitKind::OvalFill },
        ],
        forall|k: int|
            0 <= k < own_strokes(node, id, root).len() ==> (#[trigger] own_strokes(node, id, root)[k]).node == id
                && (own_strokes(node, id, root)[k].kind matches EmitKind::OvalStroke { stroke }
                && stroke < node.strokes@.len() && stroke_shown(node, stroke as int)),
        forall|s: int|
            0 <= s < node.strokes@.len() && #[trigger] stroke_shown(node, s) ==> own_strokes(node, id, root).contains(
                EmitItem { node: id, kind: EmitKind::OvalStroke { stroke: s as usize } },
            ),
{
    lemma_ellipse_stroke_items(node, id, node.strokes@.len() as int);
}

/// The stroke an item paints, if it is a stroke item.
pub open spec fn painted_stroke(kind: EmitKind) -> Option<usize> {
    match kind {
        EmitKind::RectStroke { stroke } | EmitKind::OvalStroke { stroke } | EmitKind::LineStroke { stroke }
        | EmitKind::PathStroke { stroke } | EmitKind::TextStroke { stroke } => Some(stroke),
        _ => None,
    }
}

/// A fill and a stroke item outline the same geometry.
pub open spec fn same_geometry(fill: EmitKind, stroke: EmitKind) -> bool {
    ||| fill is RectFill && stroke is RectStroke
    ||| fill is OvalFill && stroke is OvalStroke
    ||| fill is PathFill && stroke is PathStroke
    ||| fill is TextFill && stroke is TextStroke
}

proof fn lemma_stroke_items_name_shown_strokes(node: EmitNode, id: NodeId, count: int)
    requires
        0 <= count <= node.strokes@.len(),
    ensures
        forall|k: int|
            0 <= k < stroke_items(node, id, count).len() ==> (#[trigger] stroke_items(node, id, count)[k]).node == id
                && (painted_stroke(stroke_items(node, id, count)[k].kind) matches Some(s) && s < count && stroke_shown(
                node,
                s as int,
            ) && stroke_items(node, id, count)[k].kind == stroke_kind(node.payload, s)),
    decreases count,
{
    if count > 0 {
        lemma_stroke_items_name_shown_strokes(node, id, count - 1);
        let earlier = stroke_items(node, id, count - 1);
        let items = stroke_items(node, id, count);
        assert(node.strokes@.len() == node.strokes.len());
        let s = (count - 1) as usize;
        assert(s as int == count - 1);
        assert(painted_stroke(stroke_kind(node.payload, s)) == Some(s));
        if stroke_shown(node, count - 1) {
            assert(items == earlier.push(EmitItem { node: id, kind: stroke_kind(node.payload, s) }));
            assert forall|k: int| 0 <= k < items.len() implies (#[trigger] items[k]).node == id && (painted_stroke(
                items[k].kind,
            ) matches Some(t) && t < count && stroke_shown(node, t as int) && items[k].kind == stroke_kind(
                node.payload,
                t,
            )) by {
                if k < earlier.len() {
                    assert(items[k] == earlier[k]);
                    assert(earlier[k].node == id);
                }
            }
        } else {
            assert(items == earlier);
        }
    }
}

/// A node's fill and its strokes paint the same geometry: a rectangle or
/// frame fills and strokes as a rectangle, an ellipse as an oval, a path as
/// a path and text as text.
pub proof fn lemma_fill_and_strokes_share_geometry(node: EmitNode, id: NodeId, root: NodeId)
    requires
        fill_kind(node) is Some,
    ensures
        forall|k: int|
            0 <= k < own_strokes(node, id, root).len() ==> same_geometry(
                fill_kind(node).unwrap(),
                (#[trigger] own_strokes(node, id, root)[k]).kind,
            ),
{
    lemma_stroke_items_name_shown_strokes(node, id, node.strokes@.len() as int);
    assert forall|k: int| 0 <= k < own_strokes(node, id, root).len() implies same_geometry(
        fill_kind(node).unwrap(),
        (#[trigger] own_strokes(node, id, root)[k]).kind,
    ) by {
        let items = stroke_items(node, id, node.strokes@.len() as int);
        assert(own_strokes(node, id, root)[k] == items[k]);
        let s = painted_stroke(items[k].kind).unwrap();
        assert(items[k].kind == stroke_kind(node.payload, s));
    }
}

} // verus!
