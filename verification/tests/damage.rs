use n0::damage::{
    diff_inputs, union_rect, DamageOwner, FrameDamageInput, ItemFacts, Material, Rect,
};

/// A producer-owned material fact: the policy only compares it exactly.
#[derive(Debug, Clone, Copy, PartialEq, Eq)]
struct MaterialFact {
    kind: &'static str,
    revision: u8,
}

impl Material for MaterialFact {
    fn same(&self, other: &Self) -> bool {
        self == other
    }
}

const RECT: u64 = 10;
const TEXT: u64 = 20;
const ENVIRONMENT: u64 = 1;

fn coverage() -> Rect {
    Rect {
        x: 10,
        y: 10,
        w: 28,
        h: 24,
    }
}

/// One rectangle fill whose paint-consumed material is its color.
fn rect_item(color: u32) -> ItemFacts {
    ItemFacts {
        material: color as u64,
        is_text: false,
    }
}

fn literal_input(
    item: ItemFacts,
    owner: u64,
    revision: u8,
    environment: u64,
) -> FrameDamageInput<MaterialFact> {
    FrameDamageInput::new(
        vec![(
            owner,
            DamageOwner::new(
                MaterialFact {
                    kind: "rectangle",
                    revision,
                },
                Some(coverage()),
            ),
        )],
        vec![owner],
        vec![item],
        None,
        Some(environment),
    )
}

#[test]
fn complete_policy_accepts_non_document_owners_and_ignores_item_node_slots() {
    // The item node slot (7 or 99) never enters the item facts.
    let before_list = rect_item(0xFFDC_2626);
    let same_list_with_another_slot = rect_item(0xFFDC_2626);
    let changed_list = rect_item(0xFF25_63EB);
    let before = literal_input(before_list, RECT, 1, ENVIRONMENT);
    let same = literal_input(same_list_with_another_slot, RECT, 1, ENVIRONMENT);
    let changed = literal_input(changed_list, RECT, 2, ENVIRONMENT);

    let damage = diff_inputs(&before, &same);
    assert!(
        damage.changed.is_empty() && damage.union_world.is_none(),
        "the supplied opaque owner, not the private drawlist slot, owns attribution"
    );
    let damage = diff_inputs(&before, &changed);
    assert_eq!(damage.changed, vec![RECT]);
    assert_eq!(
        damage.union_world,
        Some(coverage()),
        "one exact material transition returns that owner and its exact coverage"
    );
}

#[test]
fn complete_policy_treats_owner_key_replacement_as_disappear_and_appear() {
    let list = rect_item(0xFFDC_2626);
    let replacement = 11;
    let before = literal_input(list, RECT, 1, ENVIRONMENT);
    let after = literal_input(list, replacement, 1, ENVIRONMENT);

    let damage = diff_inputs(&before, &after);
    assert_eq!(damage.changed, vec![RECT, replacement]);
    assert_eq!(damage.union_world, Some(coverage()));
}

fn two_owner_input(
    items: Vec<(u64, ItemFacts)>,
    text_fonts: Option<u64>,
    environment: Option<u64>,
) -> FrameDamageInput<u64> {
    let (owners, facts): (Vec<u64>, Vec<ItemFacts>) = items.into_iter().unzip();
    FrameDamageInput::new(
        vec![
            (RECT, DamageOwner::new(1, Some(coverage()))),
            (
                TEXT,
                DamageOwner::new(
                    2,
                    Some(Rect {
                        x: 50,
                        y: 10,
                        w: 30,
                        h: 24,
                    }),
                ),
            ),
        ],
        owners,
        facts,
        text_fonts,
        environment,
    )
}

fn text_item() -> ItemFacts {
    ItemFacts {
        material: 77,
        is_text: true,
    }
}

#[test]
fn identical_inputs_have_no_damage() {
    let input = two_owner_input(
        vec![(RECT, rect_item(1)), (TEXT, text_item())],
        Some(5),
        Some(ENVIRONMENT),
    );
    let damage = diff_inputs(&input, &input);
    assert!(damage.changed.is_empty());
    assert_eq!(damage.union_world, None);
}

#[test]
fn font_registry_change_damages_only_text_owners() {
    let before = two_owner_input(
        vec![(RECT, rect_item(1)), (TEXT, text_item())],
        Some(5),
        Some(ENVIRONMENT),
    );
    let after = two_owner_input(
        vec![(RECT, rect_item(1)), (TEXT, text_item())],
        Some(6),
        Some(ENVIRONMENT),
    );
    let damage = diff_inputs(&before, &after);
    assert_eq!(damage.changed, vec![TEXT]);
    assert_eq!(
        damage.union_world,
        Some(Rect {
            x: 50,
            y: 10,
            w: 30,
            h: 24
        })
    );
}

#[test]
fn environment_change_damages_every_item_owner() {
    let before = two_owner_input(
        vec![(RECT, rect_item(1)), (TEXT, text_item())],
        None,
        Some(1),
    );
    let after = two_owner_input(
        vec![(RECT, rect_item(1)), (TEXT, text_item())],
        None,
        Some(2),
    );
    let damage = diff_inputs(&before, &after);
    assert_eq!(damage.changed, vec![RECT, TEXT]);
    assert_eq!(
        damage.union_world,
        Some(Rect {
            x: 10,
            y: 10,
            w: 70,
            h: 24
        })
    );
}

#[test]
fn painter_order_swap_damages_both_moved_owners() {
    let before = two_owner_input(
        vec![(RECT, rect_item(1)), (TEXT, text_item())],
        None,
        None,
    );
    let after = two_owner_input(
        vec![(TEXT, text_item()), (RECT, rect_item(1))],
        None,
        None,
    );
    let damage = diff_inputs(&before, &after);
    assert_eq!(damage.changed, vec![RECT, TEXT]);
}

#[test]
fn a_parent_scope_insertion_does_not_damage_shifted_siblings() {
    // An extra item for RECT shifts TEXT's absolute position but not its
    // position among the unchanged owners.
    let before = two_owner_input(
        vec![(RECT, rect_item(1)), (TEXT, text_item())],
        None,
        None,
    );
    let after = two_owner_input(
        vec![(RECT, rect_item(900)), (RECT, rect_item(1)), (TEXT, text_item())],
        None,
        None,
    );
    let damage = diff_inputs(&before, &after);
    assert_eq!(damage.changed, vec![RECT]);
    assert_eq!(damage.union_world, Some(coverage()));
}

#[test]
fn damage_is_symmetric() {
    let before = two_owner_input(
        vec![(RECT, rect_item(1)), (TEXT, text_item())],
        Some(1),
        None,
    );
    let after = two_owner_input(vec![(TEXT, text_item())], Some(1), None);
    assert_eq!(
        diff_inputs(&before, &after).changed,
        diff_inputs(&after, &before).changed
    );
    assert_eq!(diff_inputs(&before, &after).changed, vec![RECT]);
}

#[test]
fn resource_free_inputs_compare_without_an_environment() {
    let before = FrameDamageInput::resource_free(
        vec![(3, DamageOwner::new(0u64, None))],
        vec![3],
        vec![rect_item(4)],
        None,
    );
    let after = FrameDamageInput::resource_free(
        vec![(3, DamageOwner::new(0u64, None))],
        vec![3],
        vec![rect_item(5)],
        None,
    );
    let damage = diff_inputs(&before, &after);
    assert_eq!(damage.changed, vec![3]);
    assert_eq!(damage.union_world, None, "a fully clipped change keeps attribution without an envelope");
}

#[test]
fn union_rect_covers_both_rectangles() {
    let a = Rect {
        x: 10,
        y: 10,
        w: 28,
        h: 24,
    };
    let b = Rect {
        x: -5,
        y: 20,
        w: 10,
        h: 40,
    };
    assert_eq!(union_rect(None, b), b);
    assert_eq!(
        union_rect(Some(a), b),
        Rect {
            x: -5,
            y: 10,
            w: 43,
            h: 50
        }
    );
}

use n0::damage::{
    diff, diff_frame, resolved_damage_fact, slot_changed, Damage, DrawItemFacts, FrameProduct, Resolved,
    ResolvedDamageFact, ResolvedSlot,
};

const ABSENT: ResolvedDamageFact = ResolvedDamageFact {
    box_in_parent: None,
    local: None,
    world: None,
    text_layout: None,
    path: None,
};

fn placed(token: u64, aabb: Rect) -> ResolvedSlot {
    ResolvedSlot {
        fact: ResolvedDamageFact {
            box_in_parent: Some(token),
            local: Some(token),
            world: Some(token),
            text_layout: None,
            path: None,
        },
        aabb: Some(aabb),
    }
}

fn rect(x: i64, y: i64, w: i64, h: i64) -> Rect {
    Rect { x, y, w, h }
}

fn root() -> ResolvedSlot {
    placed(0, rect(0, 0, 180, 100))
}

#[test]
fn absent_facts_have_no_resolved_column() {
    assert!(ABSENT.is_absent());
    assert!(!placed(1, rect(0, 0, 1, 1)).fact.is_absent());
    let text_only = ResolvedDamageFact { text_layout: Some(3), ..ABSENT };
    assert!(!text_only.is_absent());
    assert!(ABSENT.same(&ABSENT));
    assert!(!ABSENT.same(&text_only));
}

#[test]
fn geometry_diff_reports_moved_appeared_and_disappeared_slots() {
    let prev = Resolved::new(vec![root(), placed(1, rect(10, 10, 28, 24)), placed(2, rect(50, 10, 30, 24))]);
    let next = Resolved::new(vec![
        root(),
        placed(1, rect(12, 10, 28, 24)),
        placed(2, rect(50, 10, 30, 24)),
        placed(3, rect(0, 60, 5, 5)),
    ]);
    assert!(slot_changed(&prev, &next, 1));
    assert!(!slot_changed(&prev, &next, 2));
    assert!(slot_changed(&prev, &next, 3));
    assert_eq!(resolved_damage_fact(&prev, 3), ABSENT);
    assert_eq!(prev.aabb_opt(3), None);
    assert_eq!(prev.slot_count(), 3);
    let damage = diff(&prev, &next);
    assert_eq!(damage.changed, vec![1, 3]);
    assert_eq!(damage.union_world, Some(rect(0, 10, 40, 55)));
    assert!(!damage.is_empty());
    assert!(diff(&prev, &prev).is_empty());
    assert_eq!(diff(&next, &prev).changed, vec![1, 3]);
}

#[test]
fn a_tombstoned_slot_compares_equal_to_a_missing_one() {
    let prev = Resolved::new(vec![root(), ResolvedSlot { fact: ABSENT, aabb: None }]);
    let next = Resolved::new(vec![root()]);
    assert!(!slot_changed(&prev, &next, 1));
    assert_eq!(
        diff(&prev, &next),
        Damage {
            changed: vec![],
            union_world: None
        }
    );
}

fn frame(resolved: Resolved, items: Vec<(u32, u64, bool)>, text_fonts: Option<u64>) -> FrameProduct {
    let items = items
        .into_iter()
        .map(|(node, material, is_text)| DrawItemFacts {
            node,
            facts: ItemFacts { material, is_text },
        })
        .collect();
    FrameProduct::new(resolved, items, text_fonts, Some(ENVIRONMENT))
}

#[test]
fn frame_diff_is_the_slot_walk_when_only_geometry_changes() {
    let before = frame(
        Resolved::new(vec![root(), placed(1, rect(10, 10, 28, 24)), placed(2, rect(50, 10, 30, 24))]),
        vec![(1, 7, false), (2, 8, true)],
        Some(4),
    );
    let after = frame(
        Resolved::new(vec![root(), placed(1, rect(10, 12, 28, 24)), placed(2, rect(50, 10, 30, 24))]),
        vec![(1, 7, false), (2, 8, true)],
        Some(4),
    );
    let complete = diff_frame(&before, &after);
    let geometry = diff(before.resolved(), after.resolved());
    assert_eq!(complete, geometry);
    assert_eq!(complete.changed, vec![1]);
    assert_eq!(complete.union_world, Some(rect(10, 10, 28, 26)));
}

#[test]
fn frame_diff_sees_paint_only_and_font_registry_changes() {
    let resolved = || Resolved::new(vec![root(), placed(1, rect(10, 10, 28, 24)), placed(2, rect(50, 10, 30, 24))]);
    let before = frame(resolved(), vec![(1, 7, false), (2, 8, true)], Some(4));
    let repainted = frame(resolved(), vec![(1, 9, false), (2, 8, true)], Some(4));
    let damage = diff_frame(&before, &repainted);
    assert_eq!(damage.changed, vec![1]);
    assert_eq!(damage.union_world, Some(rect(10, 10, 28, 24)));
    assert!(diff(before.resolved(), repainted.resolved()).is_empty());

    let refonted = frame(resolved(), vec![(1, 7, false), (2, 8, true)], Some(5));
    assert_eq!(diff_frame(&before, &refonted).changed, vec![2]);
    assert!(diff_frame(&before, &before).is_empty());
}
