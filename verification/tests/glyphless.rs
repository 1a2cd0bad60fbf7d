use n0::glyphless::{
    compile_frame, BuildError, CompiledItem, CompiledKind, FrameFacts, FrameItemFacts, GeometryKind, NodeFacts,
    ScopeEffect, VisualRef,
};

const FRAME_OWNER: VisualRef = VisualRef { identity: 10, provenance: 100 };
const RECT_OWNER: VisualRef = VisualRef { identity: 20, provenance: 200 };
const SCOPE_OWNER: VisualRef = VisualRef { identity: 30, provenance: 300 };
const OTHER_OWNER: VisualRef = VisualRef { identity: 40, provenance: 400 };

fn rect_node(owner: VisualRef) -> NodeFacts {
    NodeFacts {
        owner,
        bounds_valid: true,
        transform_valid: true,
        rect_valid: true,
        bounds_match: true,
        geometry: GeometryKind::Rect,
        fills: true,
        stroke: false,
        fill_pattern_error: None,
        stroke_pattern_error: None,
        gradient_error: None,
    }
}

fn frame_of(items: Vec<FrameItemFacts>) -> FrameFacts {
    FrameFacts { owner: FRAME_OWNER, bounds_valid: true, items }
}

fn scope_begin(owner: VisualRef) -> FrameItemFacts {
    FrameItemFacts::ScopeBegin { owner, effect: ScopeEffect::Opacity { opacity_bits: 0.5f32.to_bits() } }
}

fn item(slot: u32, kind: CompiledKind) -> CompiledItem {
    CompiledItem { slot, kind }
}

#[test]
fn duplicate_owners_fail_explicitly() {
    let duplicate = frame_of(vec![FrameItemFacts::Node(rect_node(FRAME_OWNER))]);
    assert!(matches!(compile_frame(&duplicate), Err(BuildError::DuplicateOwner(FRAME_OWNER))));
}

#[test]
fn duplicate_scope_owner_fails_explicitly() {
    let items = vec![scope_begin(RECT_OWNER), FrameItemFacts::Node(rect_node(RECT_OWNER)), FrameItemFacts::ScopeEnd];
    assert!(matches!(compile_frame(&frame_of(items)), Err(BuildError::DuplicateOwner(RECT_OWNER))));
}

#[test]
fn scope_lowers_onto_the_private_opacity_items() {
    let items = vec![scope_begin(SCOPE_OWNER), FrameItemFacts::Node(rect_node(RECT_OWNER)), FrameItemFacts::ScopeEnd];
    let product = compile_frame(&frame_of(items)).expect("admitted scoped frame");
    assert_eq!(
        product.items,
        vec![
            item(0, CompiledKind::BeginClipRect),
            item(1, CompiledKind::BeginIsolatedOpacity { opacity_bits: 0.5f32.to_bits() }),
            item(2, CompiledKind::Fill(GeometryKind::Rect)),
            item(1, CompiledKind::EndOpacity),
            item(0, CompiledKind::EndClip),
        ],
        "frame clip, then the scope enclosing its span"
    );
    assert_eq!(product.owners, vec![FRAME_OWNER, SCOPE_OWNER, RECT_OWNER]);
    let CompiledKind::BeginIsolatedOpacity { opacity_bits } = product.items[1].kind else {
        panic!("second item begins the opacity scope");
    };
    assert_eq!(f32::from_bits(opacity_bits), 0.5);
    assert_eq!(product.items[1].slot, product.items[3].slot, "begin and end are owned by the one scope");
}

#[test]
fn factor_does_not_bypass_or_change_gradient_preflight() {
    let valid = frame_of(vec![FrameItemFacts::Node(rect_node(RECT_OWNER))]);
    compile_frame(&valid).expect("factored valid gradient passes preflight");

    let mut singular = rect_node(RECT_OWNER);
    singular.gradient_error = Some("gradient transform is not invertible".to_string());
    let error = compile_frame(&frame_of(vec![FrameItemFacts::Node(singular)])).expect_err("factor cannot bypass preflight");
    let BuildError::Paint { owner, reason } = error else {
        panic!("singular gradient returned the wrong error: {error:?}");
    };
    assert_eq!(owner, RECT_OWNER);
    assert!(reason.contains("invertible"), "unexpected reason: {reason}");
}

#[test]
fn gradient_preflight_runs_after_the_whole_stream_and_names_the_first_node() {
    let mut first = rect_node(RECT_OWNER);
    first.gradient_error = Some("first".to_string());
    let mut second = rect_node(OTHER_OWNER);
    second.gradient_error = Some("second".to_string());
    let frame = frame_of(vec![FrameItemFacts::Node(first.clone()), FrameItemFacts::Node(second)]);
    assert_eq!(
        compile_frame(&frame),
        Err(BuildError::Paint { owner: RECT_OWNER, reason: "first".to_string() })
    );
    // A stream refusal later in the stream still comes before any preflight.
    let mut mismatched = rect_node(OTHER_OWNER);
    mismatched.bounds_match = false;
    let frame = frame_of(vec![FrameItemFacts::Node(first), FrameItemFacts::Node(mismatched)]);
    assert_eq!(compile_frame(&frame), Err(BuildError::VisualBoundsMismatch(OTHER_OWNER)));
}

#[test]
fn failed_nested_patterns_refuse_with_a_paint_error() {
    let mut fill = rect_node(RECT_OWNER);
    fill.fill_pattern_error = Some("invalid frame bounds".to_string());
    assert_eq!(
        compile_frame(&frame_of(vec![FrameItemFacts::Node(fill)])),
        Err(BuildError::Paint {
            owner: RECT_OWNER,
            reason: "nested pattern program failed projection: invalid frame bounds".to_string()
        })
    );
    let mut unstroked = rect_node(RECT_OWNER);
    unstroked.stroke_pattern_error = Some("ignored".to_string());
    assert!(compile_frame(&frame_of(vec![FrameItemFacts::Node(unstroked.clone())])).is_ok());
    unstroked.stroke = true;
    assert_eq!(
        compile_frame(&frame_of(vec![FrameItemFacts::Node(unstroked)])),
        Err(BuildError::Paint {
            owner: RECT_OWNER,
            reason: "nested pattern program failed projection: ignored".to_string()
        })
    );
}

#[test]
fn refusals_come_in_frame_then_stream_order() {
    let mut unbounded = frame_of(vec![FrameItemFacts::Node(rect_node(FRAME_OWNER))]);
    unbounded.bounds_valid = false;
    assert_eq!(compile_frame(&unbounded), Err(BuildError::InvalidFrameBounds));

    let mut mismatched = rect_node(RECT_OWNER);
    mismatched.bounds_match = false;
    let mut bad_transform = rect_node(OTHER_OWNER);
    bad_transform.transform_valid = false;
    bad_transform.bounds_match = false;
    assert_eq!(
        compile_frame(&frame_of(vec![FrameItemFacts::Node(mismatched.clone()), FrameItemFacts::Node(bad_transform.clone())])),
        Err(BuildError::VisualBoundsMismatch(RECT_OWNER))
    );
    assert_eq!(
        compile_frame(&frame_of(vec![FrameItemFacts::Node(bad_transform), FrameItemFacts::Node(mismatched)])),
        Err(BuildError::InvalidTransform(OTHER_OWNER))
    );
    let mut bad_rect = rect_node(RECT_OWNER);
    bad_rect.rect_valid = false;
    assert_eq!(compile_frame(&frame_of(vec![FrameItemFacts::Node(bad_rect)])), Err(BuildError::InvalidRectangle(RECT_OWNER)));
    let mut bad_bounds = rect_node(RECT_OWNER);
    bad_bounds.bounds_valid = false;
    assert_eq!(
        compile_frame(&frame_of(vec![FrameItemFacts::Node(bad_bounds)])),
        Err(BuildError::InvalidVisualBounds(RECT_OWNER))
    );
}

#[test]
fn failed_preflights_name_their_owner() {
    let clip = vec![
        FrameItemFacts::ScopeBegin { owner: SCOPE_OWNER, effect: ScopeEffect::Clip { preflight_ok: false } },
        FrameItemFacts::ScopeEnd,
    ];
    assert_eq!(
        compile_frame(&frame_of(clip)),
        Err(BuildError::Clip {
            owner: SCOPE_OWNER,
            reason: "geometric union/intersection operation failed".to_string()
        })
    );
    let filter = vec![
        FrameItemFacts::ScopeBegin {
            owner: SCOPE_OWNER,
            effect: ScopeEffect::Filter { preflight_error: Some("singular filter transform".to_string()) },
        },
        FrameItemFacts::ScopeEnd,
    ];
    assert_eq!(
        compile_frame(&frame_of(filter)),
        Err(BuildError::Filter { owner: SCOPE_OWNER, reason: "singular filter transform".to_string() })
    );
    let mask = vec![
        FrameItemFacts::MaskBegin { owner: SCOPE_OWNER, preflight_ok: false },
        FrameItemFacts::MaskSource,
        FrameItemFacts::MaskEnd,
    ];
    assert_eq!(
        compile_frame(&frame_of(mask)),
        Err(BuildError::Mask { owner: SCOPE_OWNER, reason: "geometric mask-region operation failed".to_string() })
    );
}

#[test]
fn masks_and_clips_lower_onto_nested_balanced_items() {
    let mut stroked = rect_node(RECT_OWNER);
    stroked.geometry = GeometryKind::Ellipse;
    stroked.stroke = true;
    let items = vec![
        FrameItemFacts::ScopeBegin { owner: SCOPE_OWNER, effect: ScopeEffect::Clip { preflight_ok: true } },
        FrameItemFacts::MaskBegin { owner: OTHER_OWNER, preflight_ok: true },
        FrameItemFacts::Node(stroked),
        FrameItemFacts::MaskSource,
        FrameItemFacts::MaskEnd,
        FrameItemFacts::ScopeEnd,
    ];
    let product = compile_frame(&frame_of(items)).expect("admitted nested frame");
    assert_eq!(
        product.items,
        vec![
            item(0, CompiledKind::BeginClipRect),
            item(1, CompiledKind::BeginClipPath),
            item(2, CompiledKind::BeginMaskContent),
            item(3, CompiledKind::Fill(GeometryKind::Ellipse)),
            item(3, CompiledKind::Stroke(GeometryKind::Ellipse)),
            item(2, CompiledKind::BeginMaskSource),
            item(2, CompiledKind::EndMaskSource),
            item(2, CompiledKind::EndMaskContent),
            item(1, CompiledKind::EndClip),
            item(0, CompiledKind::EndClip),
        ]
    );
}
