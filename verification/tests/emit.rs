use n0::drawlist::{TextContent, TextRun};
use n0::emit::{build_items, visible_stroke, EmitItem, EmitKind, EmitNode, PayloadKind, StrokeFacts};
use n0::paint::{Paint, SolidPaint};
use n0::paint::{Color, Paints};

fn ink() -> Paints {
    Paints::solid(Color(0xFFDC_2626))
}

fn node(payload: PayloadKind, children: Vec<u32>) -> EmitNode {
    EmitNode {
        visible: true,
        payload,
        opacity_scope: false,
        fills: ink(),
        resolved_path: false,
        strokes: vec![],
        children,
    }
}

fn stroke() -> StrokeFacts {
    StrokeFacts { renderable: true, paints: Paints::solid(Color::black()) }
}

fn item(node: u32, kind: EmitKind) -> EmitItem {
    EmitItem { node, kind }
}

fn scene() -> Vec<EmitNode> {
    let mut frame = node(PayloadKind::Frame { clips_content: true }, vec![2]);
    frame.opacity_scope = true;
    frame.strokes = vec![stroke()];
    let mut text = node(PayloadKind::Text(TextContent { runs: None }), vec![]);
    text.strokes = vec![StrokeFacts { renderable: false, paints: Paints::solid(Color::black()) }, stroke()];
    vec![
        node(PayloadKind::Frame { clips_content: true }, vec![1, 3]),
        frame,
        node(PayloadKind::Ellipse, vec![]),
        node(PayloadKind::Group, vec![4]),
        text,
    ]
}

#[test]
fn opacity_encloses_fill_descendants_and_strokes_while_clip_encloses_descendants() {
    let items = build_items(&scene(), 0);
    assert_eq!(
        items,
        vec![
            item(0, EmitKind::BeginClipRect),
            item(1, EmitKind::BeginOpacity),
            item(1, EmitKind::RectFill),
            item(1, EmitKind::BeginClipRect),
            item(2, EmitKind::OvalFill),
            item(1, EmitKind::EndClip),
            item(1, EmitKind::RectStroke { stroke: 0 }),
            item(1, EmitKind::EndOpacity),
            item(4, EmitKind::TextFill),
            item(4, EmitKind::TextStroke { stroke: 1 }),
            item(0, EmitKind::EndClip),
        ]
    );
}

#[test]
fn a_hidden_subtree_prunes_and_the_root_paints_no_ink() {
    let mut nodes = scene();
    nodes[1].visible = false;
    nodes[0].payload = PayloadKind::Rect;
    let items = build_items(&nodes, 0);
    assert_eq!(items, vec![item(4, EmitKind::TextFill), item(4, EmitKind::TextStroke { stroke: 1 })]);
    nodes[0].visible = false;
    assert!(build_items(&nodes, 0).is_empty());
}

#[test]
fn lines_have_no_fill_and_unresolved_paths_paint_nothing() {
    let mut line = node(PayloadKind::Line, vec![]);
    line.strokes = vec![stroke()];
    let mut path = node(PayloadKind::Path, vec![]);
    path.strokes = vec![stroke()];
    let mut resolved = path.clone();
    resolved.resolved_path = true;
    let nodes = vec![node(PayloadKind::Group, vec![1, 2, 3]), line, path, resolved];
    assert_eq!(
        build_items(&nodes, 0),
        vec![
            item(1, EmitKind::LineStroke { stroke: 0 }),
            item(3, EmitKind::PathFill),
            item(3, EmitKind::PathStroke { stroke: 0 }),
        ]
    );
}

#[test]
fn text_fills_only_when_some_owned_paint_is_visible() {
    let explicit_empty = TextContent { runs: Some(vec![TextRun { fills: Some(Paints::default()) }]) };
    let inherited = TextContent { runs: Some(vec![TextRun { fills: Some(Paints::default()) }, TextRun { fills: None }]) };
    let invisible = Paints::solid(Color(0x00FF_0000));
    let mut hidden_ink = node(PayloadKind::Text(TextContent { runs: None }), vec![]);
    hidden_ink.fills = invisible;
    let nodes = vec![
        node(PayloadKind::Group, vec![1, 2, 3]),
        node(PayloadKind::Text(explicit_empty), vec![]),
        node(PayloadKind::Text(inherited), vec![]),
        hidden_ink,
    ];
    assert_eq!(build_items(&nodes, 0), vec![item(2, EmitKind::TextFill)]);
}

#[test]
fn children_may_precede_their_parent_in_the_arena() {
    let nodes = vec![
        node(PayloadKind::Rect, vec![]),
        node(PayloadKind::Group, vec![2, 0]),
        node(PayloadKind::Ellipse, vec![]),
    ];
    assert_eq!(build_items(&nodes, 1), vec![item(2, EmitKind::OvalFill), item(0, EmitKind::RectFill)]);
}

#[test]
fn a_visible_stroke_keeps_only_its_visible_paints() {
    let mut inactive = SolidPaint::new(Color(0xFF00_FF00));
    inactive.active = false;
    let paints = Paints::new(vec![
        Paint::Solid(SolidPaint::new(Color(0x0000_00FF))),
        Paint::Solid(inactive),
        Paint::Solid(SolidPaint::new(Color::black())),
    ]);
    let shown = visible_stroke(&StrokeFacts { renderable: true, paints: paints.clone() }).expect("one paint is visible");
    assert_eq!(shown.paints, Paints::solid(Color::black()));
    assert_eq!(visible_stroke(&StrokeFacts { renderable: false, paints }), None);
    let invisible = Paints::new(vec![Paint::Solid(inactive)]);
    assert_eq!(visible_stroke(&StrokeFacts { renderable: true, paints: invisible }), None);
}
