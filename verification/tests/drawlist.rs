use n0::drawlist::{materialize_text_paints, GlyphlessOwnerSlot, TextContent, TextPaints, TextRun};
use n0::paint::{
    visible_paints, BlendMode, Color, NonSolidKind, NonSolidPaint, Paint, Paints, SolidPaint,
};

#[test]
fn uniform_text_uses_node_paints_only_for_uniform_ownership() {
    let node = Paints::solid(Color::black());
    let paints = TextPaints {
        node: node.clone(),
        runs: None,
    };

    assert_eq!(paints.for_source_run(None), Some(&node));
    assert_eq!(paints.for_source_run(Some(0)), None);
}

#[test]
fn attributed_text_fails_closed_without_valid_run_ownership() {
    let node = Paints::solid(Color::black());
    let override_paints = Paints::solid(Color(0xFFFF_0000));
    let paints = TextPaints {
        node: node.clone(),
        runs: Some(vec![
            None,
            Some(override_paints.clone()),
            Some(Paints::default()),
        ]),
    };

    assert_eq!(paints.for_source_run(Some(0)), Some(&node));
    assert_eq!(paints.for_source_run(Some(1)), Some(&override_paints));
    assert!(paints
        .for_source_run(Some(2))
        .expect("valid explicit-empty run")
        .is_empty());
    assert_eq!(paints.for_source_run(None), None);
    assert_eq!(paints.for_source_run(Some(3)), None);
}

fn solid(argb: u32, active: bool) -> Paint {
    Paint::Solid(SolidPaint {
        color: Color(argb),
        active,
        blend_mode: BlendMode::Normal,
    })
}

#[test]
fn visible_paints_keep_only_inked_paints_in_stack_order() {
    let gradient = Paint::NonSolid(NonSolidPaint {
        kind: NonSolidKind::LinearGradient,
        active: true,
        blend_mode: BlendMode::Multiply,
        fully_transparent: false,
    });
    let transparent_gradient = Paint::NonSolid(NonSolidPaint {
        kind: NonSolidKind::RadialGradient,
        active: true,
        blend_mode: BlendMode::Normal,
        fully_transparent: true,
    });
    let stack = Paints::new(vec![
        solid(0xFF11_2233, true),
        solid(0x0011_2233, true),
        gradient,
        solid(0xFF44_5566, false),
        transparent_gradient,
        solid(0x8000_00FF, true),
    ]);
    let visible = visible_paints(&stack);
    assert_eq!(
        visible.paints,
        vec![solid(0xFF11_2233, true), gradient, solid(0x8000_00FF, true)]
    );
    assert!(visible_paints(&Paints::empty()).is_empty());
}

#[test]
fn text_ink_follows_run_ownership() {
    let node = Paints::solid(Color::black());
    let uniform = TextPaints {
        node: node.clone(),
        runs: None,
    };
    assert!(uniform.has_visible_ink());
    let uniform_empty = TextPaints {
        node: Paints::empty(),
        runs: None,
    };
    assert!(!uniform_empty.has_visible_ink());
    let explicit_no_ink = TextPaints {
        node: node.clone(),
        runs: Some(vec![Some(Paints::empty()), Some(Paints::empty())]),
    };
    assert!(!explicit_no_ink.has_visible_ink());
    let inherits = TextPaints {
        node,
        runs: Some(vec![Some(Paints::empty()), None]),
    };
    assert!(inherits.has_visible_ink());
    let no_runs = TextPaints {
        node: Paints::solid(Color::black()),
        runs: Some(vec![]),
    };
    assert!(!no_runs.has_visible_ink());
}

#[test]
fn materialized_text_paints_keep_the_three_run_states() {
    let text = TextContent {
        runs: Some(vec![
            TextRun { fills: None },
            TextRun {
                fills: Some(Paints::new(vec![solid(0x00FF_0000, true), solid(0xFF00_FF00, true)])),
            },
            TextRun {
                fills: Some(Paints::new(vec![solid(0xFF00_00FF, false)])),
            },
        ]),
    };
    let node_fills = Paints::new(vec![solid(0xFF00_0000, true), solid(0xFF12_3456, false)]);
    let paints = materialize_text_paints(&text, &node_fills);
    assert_eq!(paints.node.paints, vec![solid(0xFF00_0000, true)]);
    assert_eq!(
        paints.runs,
        Some(vec![
            None,
            Some(Paints::new(vec![solid(0xFF00_FF00, true)])),
            Some(Paints::empty()),
        ])
    );
    let uniform = materialize_text_paints(&TextContent { runs: None }, &node_fills);
    assert_eq!(uniform.runs, None);
}

#[test]
fn glyphless_owner_slots_index_their_provenance() {
    assert_eq!(GlyphlessOwnerSlot::new(0).index(), 0);
    assert_eq!(GlyphlessOwnerSlot::new(91).index(), 91);
    assert!(GlyphlessOwnerSlot::new(3) < GlyphlessOwnerSlot::new(4));
}

#[test]
fn color_channels_read_from_argb() {
    assert_eq!(Color(0x80FF_0000).alpha(), 0x80);
    assert_eq!(Color::black().argb(), 0xFF00_0000);
    assert!(!solid(0x00FF_FFFF, true).visible());
    assert!(solid(0x01FF_FFFF, true).visible());
}
